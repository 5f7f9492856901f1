//! What is done about messages of users and workers.
//!
//! Each message leads to a first step. The caller performs it and goes on with the function
//! for what came of it.
use vstd::prelude::*;
use crate::csi::volume::CsiMessage;
use crate::network::address;
use crate::network::address::Ipv4Addr;
use crate::network::service_ip;
use crate::network::service_ip::validate_cluster_ip_immutability;
use crate::protocol::message;
use crate::protocol::message::{LogRequest, RksMessage};
use crate::protocol::meta::{ObjectMeta, ResourceKind};
use crate::protocol::node::NodeStatus;
use crate::protocol::pod::{PodStatus, PodTask};
use crate::protocol::service::{ServiceSpec, ServiceTask};
use crate::protocol::value::Value;
use crate::protocol::workload::{Deployment, DeploymentSpec, ReplicaSet, ReplicaSetSpec};
use crate::random;
use crate::random::uid_to_text;
use crate::text;
use crate::text::{concat2, concat3, concat4, eq_ignoring_ascii_case, opt_clone, opt_eq, str_eq, trim};

verus! {

/// The first step about a user's message.
#[derive(Debug)]
pub enum UserStep {
    /// Create the pod, unless one of its name is stored.
    CreatePod(PodTask),
    /// Delete the pod and acknowledge.
    DeletePod(String),
    /// List the pods and look for the identifier.
    FindPod(u128),
    /// Read the object and show it.
    Show(ResourceKind, String),
    /// List the objects of the kind and show them.
    List(ResourceKind),
    CreateReplicaSet(ReplicaSet),
    UpdateReplicaSet(ReplicaSet),
    CreateDeployment(Deployment),
    UpdateDeployment(Deployment),
    /// Delete the object, its dependents in the background, and acknowledge.
    DeleteObject(ResourceKind, String),
    Rollback { name: String, revision: i64 },
    History(String),
    /// Find the service an address and store it.
    CreateService(ServiceTask),
    /// Read the stored service and update it.
    UpdateService(ServiceTask),
    /// Delete the service, its dependents in the background, acknowledge, and release its
    /// address once it is gone.
    DeleteService(String),
    UpdatePodStatus { pod_name: String, pod_namespace: String, status: PodStatus },
    Logs(LogRequest),
    Reply(RksMessage),
    Nothing,
}

/// Why the specification of a service is refused, if it is.
pub open spec fn spec_fault(spec: ServiceSpec) -> Option<Seq<char>> {
    if spec.service_type@ != "ClusterIP"@ {
        None
    } else {
        match spec.cluster_ip {
            None => None,
            Some(s) => {
                let t = text::trimmed(s@);
                if t.len() == 0 || service_ip::is_none_word(t) || address::ipv4_of(t) is Some {
                    None
                } else {
                    Some("invalid cluster_ip format: "@ + s@)
                }
            },
        }
    }
}

/// Validate Service spec before creation or update.
///
/// Checks:
/// - ClusterIP IPv4 format (if specified)
pub fn validate_service_spec(spec: &ServiceSpec) -> (r: Result<(), String>)
    ensures
        match r {
            Ok(_) => spec_fault(*spec) is None,
            Err(m) => spec_fault(*spec) == Some(m@),
        },
{
    if !str_eq(spec.service_type.as_str(), "ClusterIP") {
        return Ok(());
    }
    if let Some(s) = &spec.cluster_ip {
        let t = trim(s.as_str());
        if !t.as_str().is_empty() && !eq_ignoring_ascii_case(t.as_str(), "none") {
            match Ipv4Addr::parse(t.as_str()) {
                Some(_) => {},
                None => {
                    return Err(concat2("invalid cluster_ip format: ", s.as_str()));
                },
            }
        }
    }
    Ok(())
}

/// The step about the service of a message, when its specification is valid.
pub open spec fn step_if_valid(spec: ServiceSpec, valid: UserStep, step: UserStep) -> bool {
    match spec_fault(spec) {
        None => step == valid,
        Some(e) => step matches UserStep::Reply(m) && message::reports(
            m,
            "Service validation failed: "@ + e,
        ),
    }
}

/// The first step about a user's message.
pub open spec fn is_user_step(msg: RksMessage, step: UserStep) -> bool {
    match msg {
        RksMessage::CreatePod(pod) => step == UserStep::CreatePod(pod),
        RksMessage::DeletePod(name) => step == UserStep::DeletePod(name),
        RksMessage::GetPodByUid(uid) => step == UserStep::FindPod(uid),
        RksMessage::GetPod(name) => step == UserStep::Show(ResourceKind::Pod, name),
        RksMessage::ListPod => step == UserStep::List(ResourceKind::Pod),
        RksMessage::CreateReplicaSet(rs) => step == UserStep::CreateReplicaSet(rs),
        RksMessage::UpdateReplicaSet(rs) => step == UserStep::UpdateReplicaSet(rs),
        RksMessage::DeleteReplicaSet(name) => step == UserStep::DeleteObject(
            ResourceKind::ReplicaSet,
            name,
        ),
        RksMessage::GetReplicaSet(name) => step == UserStep::Show(ResourceKind::ReplicaSet, name),
        RksMessage::ListReplicaSet => step == UserStep::List(ResourceKind::ReplicaSet),
        RksMessage::CreateDeployment(d) => step == UserStep::CreateDeployment(d),
        RksMessage::UpdateDeployment(d) => step == UserStep::UpdateDeployment(d),
        RksMessage::DeleteDeployment(name) => step == UserStep::DeleteObject(
            ResourceKind::Deployment,
            name,
        ),
        RksMessage::GetDeployment(name) => step == UserStep::Show(ResourceKind::Deployment, name),
        RksMessage::ListDeployment => step == UserStep::List(ResourceKind::Deployment),
        RksMessage::RollbackDeployment { name, revision } => step == (UserStep::Rollback {
            name,
            revision,
        }),
        RksMessage::GetDeploymentHistory(name) => step == UserStep::History(name),
        RksMessage::CreateService(svc) => step_if_valid(
            svc.spec,
            UserStep::CreateService(svc),
            step,
        ),
        RksMessage::UpdateService(svc) => step_if_valid(
            svc.spec,
            UserStep::UpdateService(svc),
            step,
        ),
        RksMessage::DeleteService(name) => step == UserStep::DeleteService(name),
        RksMessage::GetService(name) => step == UserStep::Show(ResourceKind::Service, name),
        RksMessage::ListService => step == UserStep::List(ResourceKind::Service),
        RksMessage::UpdatePodStatus { pod_name, pod_namespace, pod_status } => step == (
        UserStep::UpdatePodStatus { pod_name, pod_namespace, status: pod_status }),
        RksMessage::GetPodLogs(request) => step == UserStep::Logs(request),
        _ => step is Nothing,
    }
}

fn refusal(e: &str) -> (r: UserStep)
    ensures
        r matches UserStep::Reply(m) && message::reports(m, "Service validation failed: "@ + e@),
{
    UserStep::Reply(RksMessage::Error(concat2("Service validation failed: ", e)))
}

/// Handle user-originated messages: the first step about one.
pub fn dispatch_user(msg: RksMessage) -> (step: UserStep)
    ensures
        is_user_step(msg, step),
{
    match msg {
        RksMessage::CreatePod(pod) => UserStep::CreatePod(pod),
        RksMessage::DeletePod(name) => UserStep::DeletePod(name),
        RksMessage::GetPodByUid(uid) => UserStep::FindPod(uid),
        RksMessage::GetPod(name) => UserStep::Show(ResourceKind::Pod, name),
        RksMessage::ListPod => UserStep::List(ResourceKind::Pod),
        RksMessage::CreateReplicaSet(rs) => UserStep::CreateReplicaSet(rs),
        RksMessage::UpdateReplicaSet(rs) => UserStep::UpdateReplicaSet(rs),
        RksMessage::DeleteReplicaSet(name) => UserStep::DeleteObject(
            ResourceKind::ReplicaSet,
            name,
        ),
        RksMessage::GetReplicaSet(name) => UserStep::Show(ResourceKind::ReplicaSet, name),
        RksMessage::ListReplicaSet => UserStep::List(ResourceKind::ReplicaSet),
        RksMessage::CreateDeployment(d) => UserStep::CreateDeployment(d),
        RksMessage::UpdateDeployment(d) => UserStep::UpdateDeployment(d),
        RksMessage::DeleteDeployment(name) => UserStep::DeleteObject(
            ResourceKind::Deployment,
            name,
        ),
        RksMessage::GetDeployment(name) => UserStep::Show(ResourceKind::Deployment, name),
        RksMessage::ListDeployment => UserStep::List(ResourceKind::Deployment),
        RksMessage::RollbackDeployment { name, revision } => UserStep::Rollback { name, revision },
        RksMessage::GetDeploymentHistory(name) => UserStep::History(name),
        RksMessage::CreateService(svc) => match validate_service_spec(&svc.spec) {
            Ok(_) => UserStep::CreateService(svc),
            Err(e) => refusal(e.as_str()),
        },
        RksMessage::UpdateService(svc) => match validate_service_spec(&svc.spec) {
            Ok(_) => UserStep::UpdateService(svc),
            Err(e) => refusal(e.as_str()),
        },
        RksMessage::DeleteService(name) => UserStep::DeleteService(name),
        RksMessage::GetService(name) => UserStep::Show(ResourceKind::Service, name),
        RksMessage::ListService => UserStep::List(ResourceKind::Service),
        RksMessage::UpdatePodStatus { pod_name, pod_namespace, pod_status } => {
            UserStep::UpdatePodStatus { pod_name, pod_namespace, status: pod_status }
        },
        RksMessage::GetPodLogs(request) => UserStep::Logs(request),
        _ => UserStep::Nothing,
    }
}

/// The position of the first pod, at or after `from`, with the identifier.
pub open spec fn pod_with_uid(pods: Seq<PodTask>, uid: u128, from: int) -> int
    decreases pods.len() - from,
{
    if from < 0 || from >= pods.len() {
        pods.len() as int
    } else if pods[from].metadata.uid == uid {
        from
    } else {
        pod_with_uid(pods, uid, from + 1)
    }
}

/// The reply about the pod with the identifier.
pub fn find_pod(pods: Vec<PodTask>, uid: u128) -> (r: RksMessage)
    ensures
        ({
            let i = pod_with_uid(pods@, uid, 0);
            if i < pods@.len() {
                r == RksMessage::GetPodByUidRes(pods@[i])
            } else {
                message::reports(r, "Pod with UID "@ + random::uid_text(uid) + " not found"@)
            }
        }),
{
    let mut list = pods;
    let mut i: usize = 0;
    while i < list.len()
        invariant
            i <= list@.len(),
            list@ == pods@,
            pod_with_uid(pods@, uid, 0) == pod_with_uid(pods@, uid, i as int),
        decreases list@.len() - i,
    {
        if list[i].metadata.uid == uid {
            return RksMessage::GetPodByUidRes(list.remove(i));
        }
        i = i + 1;
    }
    RksMessage::Error(concat3("Pod with UID ", uid_to_text(uid).as_str(), " not found"))
}

fn not_found(kind: &str, name: &str) -> (r: RksMessage)
    ensures
        message::reports(r, kind@ + " "@ + name@ + " not found"@),
{
    RksMessage::Error(concat4(kind, " ", name, " not found"))
}

/// The reply with all pods.
pub fn show_pods(pods: Vec<PodTask>) -> (r: RksMessage)
    ensures
        r == RksMessage::ListPodRes(pods),
{
    RksMessage::ListPodRes(pods)
}

/// The reply with all replica sets.
pub fn show_replicasets(sets: Vec<ReplicaSet>) -> (r: RksMessage)
    ensures
        r == RksMessage::ListReplicaSetRes(sets),
{
    RksMessage::ListReplicaSetRes(sets)
}

/// The reply with all deployments.
pub fn show_deployments(deployments: Vec<Deployment>) -> (r: RksMessage)
    ensures
        r == RksMessage::ListDeploymentRes(deployments),
{
    RksMessage::ListDeploymentRes(deployments)
}

/// The reply with all services.
pub fn show_services(services: Vec<ServiceTask>) -> (r: RksMessage)
    ensures
        r == RksMessage::ListServiceRes(services),
{
    RksMessage::ListServiceRes(services)
}

/// The reply about a pod that was asked for by name.
pub fn show_pod(name: &str, found: Option<PodTask>) -> (r: RksMessage)
    ensures
        match found {
            Some(p) => r == RksMessage::GetPodRes(p),
            None => message::reports(r, "Pod"@ + " "@ + name@ + " not found"@),
        },
{
    match found {
        Some(p) => RksMessage::GetPodRes(p),
        None => not_found("Pod", name),
    }
}

/// The reply about a replica set that was asked for by name.
pub fn show_replicaset(name: &str, found: Option<ReplicaSet>) -> (r: RksMessage)
    ensures
        match found {
            Some(p) => r == RksMessage::GetReplicaSetRes(p),
            None => message::reports(r, "ReplicaSet"@ + " "@ + name@ + " not found"@),
        },
{
    match found {
        Some(p) => RksMessage::GetReplicaSetRes(p),
        None => not_found("ReplicaSet", name),
    }
}

/// The reply about a deployment that was asked for by name.
pub fn show_deployment(name: &str, found: Option<Deployment>) -> (r: RksMessage)
    ensures
        match found {
            Some(p) => r == RksMessage::GetDeploymentRes(p),
            None => message::reports(r, "Deployment"@ + " "@ + name@ + " not found"@),
        },
{
    match found {
        Some(p) => RksMessage::GetDeploymentRes(p),
        None => not_found("Deployment", name),
    }
}

/// The reply about a service that was asked for by name.
pub fn show_service(name: &str, found: Option<ServiceTask>) -> (r: RksMessage)
    ensures
        match found {
            Some(p) => r == RksMessage::GetServiceRes(p),
            None => message::reports(r, "Service"@ + " "@ + name@ + " not found"@),
        },
{
    match found {
        Some(p) => RksMessage::GetServiceRes(p),
        None => not_found("Service", name),
    }
}

/// Metadata with a time of creation: the one that it has, or the given one.
pub open spec fn created_at(m: ObjectMeta, now: i128) -> ObjectMeta {
    ObjectMeta {
        creation_timestamp: match m.creation_timestamp {
            Some(t) => Some(t),
            None => Some(now),
        },
        ..m
    }
}

fn set_created(m: &mut ObjectMeta, now: i128)
    ensures
        *final(m) == created_at(*old(m), now),
{
    if m.creation_timestamp.is_none() {
        m.creation_timestamp = Some(now);
    }
}

/// The replica set to store, or the reply that one of its name exists.
pub fn create_replicaset(rs: ReplicaSet, exists: bool, now: i128) -> (r: Result<
    ReplicaSet,
    RksMessage,
>)
    ensures
        match r {
            Ok(stored) => !exists && stored == (ReplicaSet {
                metadata: created_at(rs.metadata, now),
                ..rs
            }),
            Err(m) => exists && message::reports(
                m,
                "rs \""@ + rs.metadata.name@ + "\" already exists"@,
            ),
        },
{
    if exists {
        return Err(
            RksMessage::Error(concat3("rs \"", rs.metadata.name.as_str(), "\" already exists")),
        );
    }
    let mut rs = rs;
    set_created(&mut rs.metadata, now);
    Ok(rs)
}

/// The deployment to store, or the reply that one of its name exists.
pub fn create_deployment(d: Deployment, exists: bool, now: i128) -> (r: Result<
    Deployment,
    RksMessage,
>)
    ensures
        match r {
            Ok(stored) => !exists && stored == (Deployment {
                metadata: created_at(d.metadata, now),
                ..d
            }),
            Err(m) => exists && message::reports(
                m,
                "deployment \""@ + d.metadata.name@ + "\" already exists"@,
            ),
        },
{
    if exists {
        return Err(
            RksMessage::Error(
                concat3("deployment \"", d.metadata.name.as_str(), "\" already exists"),
            ),
        );
    }
    let mut d = d;
    set_created(&mut d.metadata, now);
    Ok(d)
}

/// Metadata of the next generation.
pub open spec fn next_generation(m: ObjectMeta) -> ObjectMeta {
    ObjectMeta {
        generation: Some(
            match m.generation {
                Some(g) => (g + 1) as i64,
                None => 1,
            },
        ),
        ..m
    }
}

/// Whether the generation can be counted on.
pub open spec fn can_count(m: ObjectMeta) -> bool {
    m.generation matches Some(g) ==> g < i64::MAX
}

fn count_generation(m: &mut ObjectMeta)
    requires
        can_count(*old(m)),
    ensures
        *final(m) == next_generation(*old(m)),
{
    let g: i64 = match m.generation {
        Some(g) => g + 1,
        None => 1,
    };
    m.generation = Some(g);
}

/// The replica set after an update: a changed specification is taken and counts as a new
/// generation.
pub open spec fn updated_replicaset(e: ReplicaSet, spec: ReplicaSetSpec) -> ReplicaSet {
    if e.spec.deep_view() == spec.deep_view() {
        e
    } else {
        ReplicaSet { metadata: next_generation(e.metadata), spec, ..e }
    }
}

/// The deployment after an update: a changed specification is taken and counts as a new
/// generation.
pub open spec fn updated_deployment(e: Deployment, spec: DeploymentSpec) -> Deployment {
    if e.spec.deep_view() == spec.deep_view() {
        e
    } else {
        Deployment { metadata: next_generation(e.metadata), spec, ..e }
    }
}

/// The service after an update: a changed specification is taken and counts as a new
/// generation.
pub open spec fn updated_service(e: ServiceTask, spec: ServiceSpec) -> ServiceTask {
    if e.spec.deep_view() == spec.deep_view() {
        e
    } else {
        ServiceTask { metadata: next_generation(e.metadata), spec, ..e }
    }
}

/// The replica set to store after an update. A stored one keeps its state: only a changed
/// specification is taken, and counts as a new generation.
pub fn update_replicaset(incoming: ReplicaSet, existing: Option<ReplicaSet>) -> (r: ReplicaSet)
    requires
        existing matches Some(e) ==> e.spec.deep_view() != incoming.spec.deep_view()
            ==> can_count(e.metadata),
    ensures
        match existing {
            None => r == incoming,
            Some(e) => r == updated_replicaset(e, incoming.spec),
        },
{
    match existing {
        None => incoming,
        Some(e) => {
            let mut e = e;
            if !e.spec.same(&incoming.spec) {
                count_generation(&mut e.metadata);
                e.spec = incoming.spec;
            }
            e
        },
    }
}

/// The deployment to store after an update. A stored one keeps its state: only a changed
/// specification is taken, and counts as a new generation.
pub fn update_deployment(incoming: Deployment, existing: Option<Deployment>) -> (r: Deployment)
    requires
        existing matches Some(e) ==> e.spec.deep_view() != incoming.spec.deep_view()
            ==> can_count(e.metadata),
    ensures
        match existing {
            None => r == incoming,
            Some(e) => r == updated_deployment(e, incoming.spec),
        },
{
    match existing {
        None => incoming,
        Some(e) => {
            let mut e = e;
            if !e.spec.same(&incoming.spec) {
                count_generation(&mut e.metadata);
                e.spec = incoming.spec;
            }
            e
        },
    }
}

/// The reply that a service could not get an address.
pub fn allocation_failed(e: &str) -> (r: RksMessage)
    ensures
        message::reports(r, "ClusterIP allocation failed: "@ + e@),
{
    RksMessage::Error(concat2("ClusterIP allocation failed: ", e))
}

/// The service to store, once it has its address.
pub fn service_to_store(svc: ServiceTask, now: i128) -> (r: ServiceTask)
    ensures
        r == (ServiceTask { metadata: created_at(svc.metadata, now), ..svc }),
{
    let mut svc = svc;
    set_created(&mut svc.metadata, now);
    svc
}

/// What reading a stored service came to.
#[derive(Debug)]
pub enum StoredService {
    Found(ServiceTask),
    /// It is not there, cannot be read, or is no service.
    Unknown,
}

/// Whether the address that was found for a service is to be released again, after another
/// request stored the service first.
pub fn should_release(existing: &StoredService, svc: &ServiceTask) -> (r: bool)
    ensures
        r == match *existing {
            StoredService::Found(e) => text::opt_text(e.spec.cluster_ip) != text::opt_text(
                svc.spec.cluster_ip,
            ),
            StoredService::Unknown => true,
        },
{
    match existing {
        StoredService::Found(e) => !opt_eq(&e.spec.cluster_ip, &svc.spec.cluster_ip),
        StoredService::Unknown => true,
    }
}

/// The reply to a creation of a service.
pub fn service_created(name: &str, created: bool) -> (r: RksMessage)
    ensures
        if created {
            r == RksMessage::Ack
        } else {
            message::reports(r, "service \""@ + name@ + "\" already exists"@)
        },
{
    if created {
        RksMessage::Ack
    } else {
        RksMessage::Error(concat3("service \"", name, "\" already exists"))
    }
}

/// The reply to an update of a service that was not stored before.
pub fn service_upserted(name: &str, created: bool) -> (r: RksMessage)
    ensures
        if created {
            r == RksMessage::Ack
        } else {
            message::reports(
                r,
                "Service "@ + name@ + " was created concurrently, please retry apply"@,
            )
        },
{
    if created {
        RksMessage::Ack
    } else {
        RksMessage::Error(
            concat3("Service ", name, " was created concurrently, please retry apply"),
        )
    }
}

/// The specification with another address.
pub open spec fn with_ip(spec: ServiceSpec, ip: Option<String>) -> ServiceSpec {
    ServiceSpec { cluster_ip: ip, ..spec }
}

/// The specification that an update asks for, or the reply that it is refused. An address that
/// is left out is kept; one that differs from the stored one is refused.
pub fn desired_service_spec(name: &str, stored: &ServiceSpec, incoming: ServiceSpec) -> (r: Result<
    ServiceSpec,
    RksMessage,
>)
    ensures
        ({
            let ip = if service_ip::trimmed_ip(incoming.cluster_ip).len() == 0 {
                stored.cluster_ip
            } else {
                incoming.cluster_ip
            };
            let wanted = with_ip(incoming, ip);
            match r {
                Ok(spec) => spec == wanted && !service_ip::changes_cluster_ip(*stored, wanted),
                Err(m) => service_ip::changes_cluster_ip(*stored, wanted) && message::reports(
                    m,
                    "Service update rejected: "@ + ("cluster_ip for service "@ + name@
                        + " cannot be modified: old="@ + service_ip::debug_text(
                        text::opt_text(stored.cluster_ip),
                    ) + ", new="@ + service_ip::debug_text(text::opt_text(ip))),
                ),
            }
        }),
{
    let mut spec = incoming;
    let missing = match &spec.cluster_ip {
        Some(s) => trim(s.as_str()).as_str().is_empty(),
        None => true,
    };
    if missing {
        spec.cluster_ip = opt_clone(&stored.cluster_ip);
    }
    match validate_cluster_ip_immutability(name, stored, &spec) {
        Ok(_) => Ok(spec),
        Err(e) => Err(RksMessage::Error(concat2("Service update rejected: ", e.as_str()))),
    }
}

/// The reply that an updated service could not keep or get its address.
pub fn reallocation_failed(e: &str) -> (r: RksMessage)
    ensures
        message::reports(r, "ClusterIP validation/allocation failed: "@ + e@),
{
    RksMessage::Error(concat2("ClusterIP validation/allocation failed: ", e))
}

/// The service to store after an update. A stored one keeps its state: only a changed
/// specification is taken, and counts as a new generation.
pub fn update_service(stored: ServiceTask, desired: ServiceSpec) -> (r: ServiceTask)
    requires
        stored.spec.deep_view() != desired.deep_view() ==> can_count(stored.metadata),
    ensures
        r == updated_service(stored, desired),
{
    let mut svc = stored;
    if !svc.spec.same(&desired) {
        count_generation(&mut svc.metadata);
        svc.spec = desired;
    }
    svc
}

/// The number of times that a deleted service is looked for.
pub const DELETION_POLLS: u32 = 300;

/// What looking for a deleted service came to.
#[derive(Debug, Clone, Copy, PartialEq, Eq, Structural)]
pub enum Presence {
    Gone,
    There,
    /// It could not be told.
    Unclear,
}

/// What follows a look for a deleted service.
#[derive(Debug, Clone, Copy, PartialEq, Eq, Structural)]
pub enum PollStep {
    /// Release its address.
    Release,
    /// Wait a second and look again.
    WaitAndLook,
    /// Wait a second and keep the address reserved.
    GiveUp,
}

/// Release the address of a deleted service only after it is actually removed: what follows
/// the look of the given number, counted from zero.
pub fn poll_deletion(look: u32, seen: Presence) -> (r: PollStep)
    requires
        look < DELETION_POLLS,
    ensures
        r == if seen == Presence::Gone {
            PollStep::Release
        } else if look + 1 < DELETION_POLLS {
            PollStep::WaitAndLook
        } else {
            PollStep::GiveUp
        },
{
    if seen == Presence::Gone {
        PollStep::Release
    } else if look + 1 < DELETION_POLLS {
        PollStep::WaitAndLook
    } else {
        PollStep::GiveUp
    }
}

/// The pod with a new status. An address that the status does not carry is kept.
pub open spec fn with_status(p: PodTask, status: PodStatus) -> PodTask {
    PodTask {
        status: PodStatus {
            pod_ip: if status.pod_ip is None {
                p.status.pod_ip
            } else {
                status.pod_ip
            },
            ..status
        },
        ..p
    }
}

/// The pod with an address.
pub open spec fn with_pod_ip(p: PodTask, pod_ip: String) -> PodTask {
    PodTask { status: PodStatus { pod_ip: Some(pod_ip), ..p.status }, ..p }
}

/// The pod to store with a new status, or the reply that it is not there. An address that the
/// status does not carry is kept.
pub fn update_pod_status(
    found: Option<PodTask>,
    pod_name: &str,
    pod_namespace: &str,
    status: PodStatus,
) -> (r: Result<PodTask, RksMessage>)
    ensures
        match (r, found) {
            (Ok(p), Some(f)) => p == with_status(f, status),
            (Err(m), None) => message::reports(
                m,
                "PodTask "@ + pod_namespace@ + "/"@ + pod_name@ + " not found"@,
            ),
            _ => false,
        },
{
    match found {
        Some(pod) => {
            let mut pod = pod;
            let mut status = status;
            if status.pod_ip.is_none() {
                status.pod_ip = opt_clone(&pod.status.pod_ip);
            }
            pod.status = status;
            Ok(pod)
        },
        None => {
            let mut m = concat4("PodTask ", pod_namespace, "/", pod_name);
            m.append(" not found");
            Err(RksMessage::Error(m))
        },
    }
}

/// The key under which the answers to a request for logs are awaited.
pub open spec fn log_key_text(namespace: Seq<char>, pod_name: Seq<char>) -> Seq<char> {
    namespace + "/"@ + pod_name
}

/// The key under which the answers to a request for logs are awaited.
pub fn log_key(namespace: &str, pod_name: &str) -> (r: String)
    ensures
        r@ == log_key_text(namespace@, pod_name@),
{
    concat3(namespace, "/", pod_name)
}

/// Whether the message reports that the logs cannot be had.
pub open spec fn is_log_error(m: RksMessage, request: LogRequest, error: Seq<char>) -> bool {
    m matches RksMessage::PodLogsError { namespace, pod_name, error: e } && namespace
        == request.namespace && pod_name == request.pod_name && e@ == error
}

/// The reply that the logs cannot be had.
pub fn log_error(request: &LogRequest, error: String) -> (r: RksMessage)
    ensures
        is_log_error(r, *request, error@),
{
    RksMessage::PodLogsError {
        namespace: request.namespace.clone(),
        pod_name: request.pod_name.clone(),
        error,
    }
}

/// The node to ask for the logs of a pod, or the reply that there is none.
pub fn log_node(request: &LogRequest, found: &Option<PodTask>) -> (r: Result<String, RksMessage>)
    ensures
        match *found {
            None => r matches Err(m) && is_log_error(
                m,
                *request,
                "Pod "@ + request.pod_name@ + " not found"@,
            ),
            Some(pod) => match pod.spec.node_name {
                Some(node) => r == Ok::<String, RksMessage>(node),
                None => r matches Err(m) && is_log_error(
                    m,
                    *request,
                    "Pod "@ + request.pod_name@ + " is not assigned to any node yet"@,
                ),
            },
        },
{
    match found {
        None => Err(
            log_error(request, concat3("Pod ", request.pod_name.as_str(), " not found")),
        ),
        Some(pod) => match &pod.spec.node_name {
            Some(node) => Ok(node.clone()),
            None => Err(
                log_error(
                    request,
                    concat3(
                        "Pod ",
                        request.pod_name.as_str(),
                        " is not assigned to any node yet",
                    ),
                ),
            ),
        },
    }
}

/// The reply that the node to ask for logs has no connection.
pub fn log_node_missing(request: &LogRequest, node: &str) -> (r: RksMessage)
    ensures
        is_log_error(r, *request, "Worker node "@ + node@ + " is not connected"@),
{
    log_error(request, concat3("Worker node ", node, " is not connected"))
}

/// The reply that the request for logs could not be passed on.
pub fn log_forward_failed(request: &LogRequest, e: &str) -> (r: RksMessage)
    ensures
        is_log_error(r, *request, "Failed to forward log request to worker: "@ + e@),
{
    log_error(request, concat2("Failed to forward log request to worker: ", e))
}

/// What is passed on of an answer to a request for logs, and whether it was the last one. When
/// no more answers come, an empty last piece is passed on.
pub fn forward_log(request: &LogRequest, answer: Option<RksMessage>) -> (r: (
    Option<RksMessage>,
    bool,
))
    ensures
        match answer {
            Some(RksMessage::PodLogsChunk { namespace, pod_name, data, is_final }) => {
                r.0 == answer && r.1 == is_final
            },
            Some(RksMessage::PodLogsError { namespace, pod_name, error }) => r.0 == answer && r.1,
            Some(_) => r.0 is None && !r.1,
            None => r.1 && (r.0 matches Some(RksMessage::PodLogsChunk {
                namespace,
                pod_name,
                data,
                is_final,
            }) && namespace == request.namespace && pod_name == request.pod_name && data@.len() == 0
                && is_final),
        },
{
    match answer {
        Some(RksMessage::PodLogsChunk { namespace, pod_name, data, is_final }) => (
            Some(RksMessage::PodLogsChunk { namespace, pod_name, data, is_final }),
            is_final,
        ),
        Some(RksMessage::PodLogsError { namespace, pod_name, error }) => (
            Some(RksMessage::PodLogsError { namespace, pod_name, error }),
            true,
        ),
        Some(_) => (None, false),
        None => (
            Some(
                RksMessage::PodLogsChunk {
                    namespace: request.namespace.clone(),
                    pod_name: request.pod_name.clone(),
                    data: Vec::new(),
                    is_final: true,
                },
            ),
            true,
        ),
    }
}

/// What is done about a worker's message.
#[derive(Debug)]
pub enum WorkerStep {
    /// Update the stored node and acknowledge.
    Heartbeat { node_name: String, status: NodeStatus },
    /// Give the stored pod its address.
    SetPodIp { pod_name: String, pod_ip: String },
    /// Pass the message to whoever awaits answers under the key.
    Answer { key: String, msg: RksMessage },
    /// Pass the message to whoever awaits the answer to the request about a volume.
    RouteResponse { id: u128, message: CsiMessage },
    /// Nothing but a note in the log.
    Note,
}

/// What is done about a worker's message.
pub open spec fn is_worker_step(msg: RksMessage, step: WorkerStep) -> bool {
    match msg {
        RksMessage::Heartbeat { node_name, status } => step == (WorkerStep::Heartbeat {
            node_name,
            status,
        }),
        RksMessage::SetPodip(p) => step == (WorkerStep::SetPodIp { pod_name: p.0, pod_ip: p.1 }),
        RksMessage::PodLogsChunk { namespace, pod_name, data, is_final } => {
            step matches WorkerStep::Answer { key, msg: m } && key@ == log_key_text(
                namespace@,
                pod_name@,
            ) && m == msg
        },
        RksMessage::PodLogsError { namespace, pod_name, error } => {
            step matches WorkerStep::Answer { key, msg: m } && key@ == log_key_text(
                namespace@,
                pod_name@,
            ) && m == msg
        },
        RksMessage::CsiResponse { id, message } => step == (WorkerStep::RouteResponse {
            id,
            message,
        }),
        _ => step is Note,
    }
}

/// Dispatch worker-originated messages
pub fn dispatch_worker(msg: RksMessage) -> (step: WorkerStep)
    ensures
        is_worker_step(msg, step),
{
    match msg {
        RksMessage::Heartbeat { node_name, status } => WorkerStep::Heartbeat { node_name, status },
        RksMessage::SetPodip((pod_name, pod_ip)) => WorkerStep::SetPodIp { pod_name, pod_ip },
        RksMessage::PodLogsChunk { namespace, pod_name, data, is_final } => {
            let key = log_key(namespace.as_str(), pod_name.as_str());
            WorkerStep::Answer {
                key,
                msg: RksMessage::PodLogsChunk { namespace, pod_name, data, is_final },
            }
        },
        RksMessage::PodLogsError { namespace, pod_name, error } => {
            let key = log_key(namespace.as_str(), pod_name.as_str());
            WorkerStep::Answer {
                key,
                msg: RksMessage::PodLogsError { namespace, pod_name, error },
            }
        },
        RksMessage::CsiResponse { id, message } => WorkerStep::RouteResponse { id, message },
        _ => WorkerStep::Note,
    }
}

/// Gives a pod its address.
pub fn set_pod_ip(pod: &mut PodTask, pod_ip: String)
    ensures
        *final(pod) == with_pod_ip(*old(pod), pod_ip),
{
    pod.status.pod_ip = Some(pod_ip);
}

/// A reported status without an address does not take away the one that the worker set.
pub proof fn law_reported_status_keeps_the_address(p: PodTask, pod_ip: String, status: PodStatus)
    requires
        status.pod_ip is None,
    ensures
        with_status(with_pod_ip(p, pod_ip), status).status.pod_ip == Some(pod_ip),
        with_status(with_pod_ip(p, pod_ip), status).status.phase == status.phase,
{
}

/// Repeating an update changes nothing more: neither the specification nor the generation.
pub proof fn law_updates_are_idempotent(
    rs: ReplicaSet,
    rs_spec: ReplicaSetSpec,
    d: Deployment,
    d_spec: DeploymentSpec,
    svc: ServiceTask,
    svc_spec: ServiceSpec,
)
    ensures
        updated_replicaset(updated_replicaset(rs, rs_spec), rs_spec) == updated_replicaset(
            rs,
            rs_spec,
        ),
        updated_deployment(updated_deployment(d, d_spec), d_spec) == updated_deployment(d, d_spec),
        updated_service(updated_service(svc, svc_spec), svc_spec) == updated_service(svc, svc_spec),
{
}

/// An update that leaves the address out keeps it.
pub proof fn law_omitted_address_is_kept(stored: ServiceSpec, incoming: ServiceSpec)
    requires
        service_ip::trimmed_ip(incoming.cluster_ip).len() == 0,
    ensures
        !service_ip::changes_cluster_ip(stored, with_ip(incoming, stored.cluster_ip)),
{
}

/// A service of the cluster is refused when the address that it names is none, and only then;
/// blank text and the word for none are accepted.
pub proof fn law_named_address_has_to_be_one(spec: ServiceSpec, r: Result<(), String>)
    requires
        call_ensures(validate_service_spec, (&spec,), r),
    ensures
        r is Err <==> spec.service_type@ == "ClusterIP"@ && (spec.cluster_ip matches Some(s)
            && text::trimmed(s@).len() > 0 && !service_ip::says_none(text::trimmed(s@))
            && address::ipv4_of(text::trimmed(s@)) is None),
{
    assert("none"@ =~= text::lowered("none"@)) by {
        reveal_strlit("none");
    }
}

/// Each message of a user leads to what it asks for, of the kind and the object that it names. A
/// service is stored only if its specification is accepted, and is answered with an error
/// otherwise; other messages ask for nothing.
pub proof fn law_users_get_what_they_ask_for(
    msg: RksMessage,
    step: UserStep,
    valid: Result<(), String>,
    spec: ServiceSpec,
)
    requires
        call_ensures(dispatch_user, (msg,), step),
        call_ensures(validate_service_spec, (&spec,), valid),
    ensures
        msg matches RksMessage::CreatePod(pod) ==> step == UserStep::CreatePod(pod),
        msg matches RksMessage::DeletePod(name) ==> step == UserStep::DeletePod(name),
        msg matches RksMessage::GetPodByUid(uid) ==> step == UserStep::FindPod(uid),
        msg matches RksMessage::GetPod(name) ==> step == UserStep::Show(ResourceKind::Pod, name),
        msg is ListPod ==> step == UserStep::List(ResourceKind::Pod),
        msg matches RksMessage::CreateReplicaSet(rs) ==> step == UserStep::CreateReplicaSet(rs),
        msg matches RksMessage::UpdateReplicaSet(rs) ==> step == UserStep::UpdateReplicaSet(rs),
        msg matches RksMessage::DeleteReplicaSet(name) ==> step == UserStep::DeleteObject(
            ResourceKind::ReplicaSet,
            name,
        ),
        msg matches RksMessage::GetReplicaSet(name) ==> step == UserStep::Show(
            ResourceKind::ReplicaSet,
            name,
        ),
        msg is ListReplicaSet ==> step == UserStep::List(ResourceKind::ReplicaSet),
        msg matches RksMessage::CreateDeployment(d) ==> step == UserStep::CreateDeployment(d),
        msg matches RksMessage::UpdateDeployment(d) ==> step == UserStep::UpdateDeployment(d),
        msg matches RksMessage::DeleteDeployment(name) ==> step == UserStep::DeleteObject(
            ResourceKind::Deployment,
            name,
        ),
        msg matches RksMessage::GetDeployment(name) ==> step == UserStep::Show(
            ResourceKind::Deployment,
            name,
        ),
        msg is ListDeployment ==> step == UserStep::List(ResourceKind::Deployment),
        msg matches RksMessage::RollbackDeployment { name, revision } ==> step == (UserStep::Rollback {
            name,
            revision,
        }),
        msg matches RksMessage::GetDeploymentHistory(name) ==> step == UserStep::History(name),
        msg matches RksMessage::CreateService(svc) && svc.spec == spec ==> (if valid is Ok {
            step == UserStep::CreateService(msg->CreateService_0)
        } else {
            step matches UserStep::Reply(m) && m is Error
        }),
        msg matches RksMessage::UpdateService(svc) && svc.spec == spec ==> (if valid is Ok {
            step == UserStep::UpdateService(msg->UpdateService_0)
        } else {
            step matches UserStep::Reply(m) && m is Error
        }),
        msg matches RksMessage::DeleteService(name) ==> step == UserStep::DeleteService(name),
        msg matches RksMessage::GetService(name) ==> step == UserStep::Show(
            ResourceKind::Service,
            name,
        ),
        msg is ListService ==> step == UserStep::List(ResourceKind::Service),
        msg matches RksMessage::UpdatePodStatus { pod_name, pod_namespace, pod_status } ==> step == (
        UserStep::UpdatePodStatus { pod_name, pod_namespace, status: pod_status }),
        msg matches RksMessage::GetPodLogs(request) ==> step == UserStep::Logs(request),
        msg is Ack || msg is Error || msg is Heartbeat || msg is SetPodip ==> step is Nothing,
{
}

proof fn lemma_pod_with_uid(pods: Seq<PodTask>, uid: u128, from: int)
    requires
        0 <= from <= pods.len(),
    ensures
        from <= pod_with_uid(pods, uid, from) <= pods.len(),
        pod_with_uid(pods, uid, from) < pods.len() ==> pods[pod_with_uid(
            pods,
            uid,
            from,
        )].metadata.uid == uid,
        forall|k: int|
            from <= k < pod_with_uid(pods, uid, from) ==> (#[trigger] pods[k]).metadata.uid != uid,
    decreases pods.len() - from,
{
    if from < pods.len() && pods[from].metadata.uid != uid {
        lemma_pod_with_uid(pods, uid, from + 1);
    }
}

/// A pod is found by its identifier when there is one with it, and otherwise an error is answered.
pub proof fn law_pod_is_found_by_its_identifier(pods: Vec<PodTask>, uid: u128, r: RksMessage)
    requires
        call_ensures(find_pod, (pods, uid), r),
    ensures
        r matches RksMessage::GetPodByUidRes(p) ==> p.metadata.uid == uid && pods@.contains(p),
        r is GetPodByUidRes || r is Error,
        r is Error <==> forall|k: int|
            0 <= k < pods@.len() ==> (#[trigger] pods@[k]).metadata.uid != uid,
{
    lemma_pod_with_uid(pods@, uid, 0);
}

/// An object is created only when none of its name is stored; it is stored as it came, with the
/// time when it was created.
pub proof fn law_objects_are_created_once(
    rs: ReplicaSet,
    d: Deployment,
    svc: ServiceTask,
    exists: bool,
    now: i128,
    r: Result<ReplicaSet, RksMessage>,
    q: Result<Deployment, RksMessage>,
    s: ServiceTask,
)
    requires
        call_ensures(create_replicaset, (rs, exists, now), r),
        call_ensures(create_deployment, (d, exists, now), q),
        call_ensures(service_to_store, (svc, now), s),
    ensures
        r is Ok <==> !exists,
        q is Ok <==> !exists,
        r matches Err(m) ==> m is Error,
        q matches Err(m) ==> m is Error,
        r matches Ok(x) ==> x.spec == rs.spec && x.status == rs.status && x.metadata.name
            == rs.metadata.name && x.metadata.uid == rs.metadata.uid && x.metadata.labels
            == rs.metadata.labels && x.metadata.creation_timestamp
            == if rs.metadata.creation_timestamp is Some {
            rs.metadata.creation_timestamp
        } else {
            Some(now)
        },
        q matches Ok(x) ==> x.spec == d.spec && x.status == d.status && x.metadata.name
            == d.metadata.name && x.metadata.uid == d.metadata.uid && x.metadata.labels
            == d.metadata.labels && x.metadata.creation_timestamp
            == if d.metadata.creation_timestamp is Some {
            d.metadata.creation_timestamp
        } else {
            Some(now)
        },
        s.spec == svc.spec && s.metadata.name == svc.metadata.name && s.metadata.creation_timestamp
            == if svc.metadata.creation_timestamp is Some {
            svc.metadata.creation_timestamp
        } else {
            Some(now)
        },
{
}

/// The number of a changed generation.
pub open spec fn one_more(g: Option<i64>) -> int {
    match g {
        Some(n) => n + 1,
        None => 1,
    }
}

/// An update gives a stored object the new specification and keeps the rest of it: its identity,
/// its status, and when it was created. The generation is counted up if the specification changed,
/// and only then. What is not stored yet is stored as it came.
pub proof fn law_updates_change_the_specification_only(
    rs: ReplicaSet,
    had_rs: Option<ReplicaSet>,
    new_rs: ReplicaSet,
    d: Deployment,
    had_d: Option<Deployment>,
    new_d: Deployment,
    stored: ServiceTask,
    desired: ServiceSpec,
    new_svc: ServiceTask,
)
    requires
        call_ensures(update_replicaset, (rs, had_rs), new_rs),
        call_ensures(update_deployment, (d, had_d), new_d),
        call_ensures(update_service, (stored, desired), new_svc),
        had_rs matches Some(e) ==> can_count(e.metadata),
        had_d matches Some(e) ==> can_count(e.metadata),
        can_count(stored.metadata),
    ensures
        had_rs is None ==> new_rs == rs,
        had_rs matches Some(e) ==> {
            let changed = e.spec.deep_view() != rs.spec.deep_view();
            &&& new_rs.spec.deep_view() == rs.spec.deep_view()
            &&& new_rs.status == e.status
            &&& new_rs.metadata == (ObjectMeta { generation: new_rs.metadata.generation, ..e.metadata })
            &&& changed ==> new_rs.metadata.generation is Some
                && new_rs.metadata.generation->0 == one_more(e.metadata.generation)
            &&& !changed ==> new_rs.metadata.generation == e.metadata.generation
        },
        had_d is None ==> new_d == d,
        had_d matches Some(e) ==> {
            let changed = e.spec.deep_view() != d.spec.deep_view();
            &&& new_d.spec.deep_view() == d.spec.deep_view()
            &&& new_d.status == e.status
            &&& new_d.metadata == (ObjectMeta { generation: new_d.metadata.generation, ..e.metadata })
            &&& changed ==> new_d.metadata.generation is Some && new_d.metadata.generation->0
                == one_more(e.metadata.generation)
            &&& !changed ==> new_d.metadata.generation == e.metadata.generation
        },
        ({
            let changed = stored.spec.deep_view() != desired.deep_view();
            &&& new_svc.spec.deep_view() == desired.deep_view()
            &&& new_svc.metadata == (ObjectMeta {
                generation: new_svc.metadata.generation,
                ..stored.metadata
            })
            &&& changed ==> new_svc.metadata.generation is Some && new_svc.metadata.generation->0
                == one_more(stored.metadata.generation)
            &&& !changed ==> new_svc.metadata.generation == stored.metadata.generation
        }),
{
}

/// An update of a service that leaves its address out keeps the stored one, and is not refused for
/// it; the other fields are those of the update.
pub proof fn law_update_without_address_keeps_it(
    name: &str,
    stored: ServiceSpec,
    incoming: ServiceSpec,
    r: Result<ServiceSpec, RksMessage>,
)
    requires
        call_ensures(desired_service_spec, (name, &stored, incoming), r),
    ensures
        incoming.cluster_ip is None ==> (r matches Ok(s) && s.cluster_ip == stored.cluster_ip),
        r matches Ok(s) ==> s.service_type == incoming.service_type && s.selector == incoming.selector
            && s.ports == incoming.ports,
        (incoming.cluster_ip matches Some(t) && text::trimmed(t@).len() > 0) ==> (r matches Ok(s)
            ==> s.cluster_ip == incoming.cluster_ip),
        r matches Err(m) ==> m is Error,
{
}

/// A reported status takes the place of the old one, except that an address that is not reported
/// stays. What the pod is and runs does not change. A status of a pod that is not stored is
/// answered with an error.
pub proof fn law_reported_status_is_taken_over(
    found: Option<PodTask>,
    pod_name: &str,
    pod_namespace: &str,
    status: PodStatus,
    r: Result<PodTask, RksMessage>,
)
    requires
        call_ensures(update_pod_status, (found, pod_name, pod_namespace, status), r),
    ensures
        r is Ok <==> found is Some,
        r matches Err(m) ==> m is Error,
        r matches Ok(p) ==> {
            let f = found->0;
            &&& p.spec == f.spec && p.metadata == f.metadata && p.kind == f.kind
            &&& p.status.phase == status.phase && p.status.message == status.message
            &&& status.pod_ip is Some ==> p.status.pod_ip == status.pod_ip
            &&& status.pod_ip is None ==> p.status.pod_ip == f.status.pod_ip
        },
{
}

/// The address of a pod is set, and nothing else of it changes.
pub proof fn law_pod_address_is_set(pod: &mut PodTask, pod_ip: String)
    requires
        call_ensures(set_pod_ip, (pod, pod_ip), ()),
    ensures
        final(pod).status.pod_ip == Some(pod_ip),
        final(pod).status.phase == old(pod).status.phase,
        final(pod).spec == old(pod).spec,
        final(pod).metadata == old(pod).metadata,
{
}

/// A reserved address is given back when another one is stored for the service, or when it is not
/// known which. The address of a deleted service is given back once the service is gone, which is
/// looked for a limited number of times.
pub proof fn law_addresses_are_given_back(
    existing: StoredService,
    svc: ServiceTask,
    release: bool,
    look: u32,
    seen: Presence,
    step: PollStep,
)
    requires
        call_ensures(should_release, (&existing, &svc), release),
        call_ensures(poll_deletion, (look, seen), step),
        look < 300,
    ensures
        existing is Unknown ==> release,
        existing matches StoredService::Found(e) ==> (release <==> e.spec.cluster_ip.deep_view()
            != svc.spec.cluster_ip.deep_view()),
        step == PollStep::Release <==> seen == Presence::Gone,
        step == PollStep::GiveUp <==> seen != Presence::Gone && look == 299,
{
    if let StoredService::Found(e) = existing {
        assert(text::opt_text(e.spec.cluster_ip) == e.spec.cluster_ip.deep_view());
        assert(text::opt_text(svc.spec.cluster_ip) == svc.spec.cluster_ip.deep_view());
    }
}

/// Logs are asked for at the node of the pod, and passed on as they come until the last piece or
/// an error; where they break off, an empty last piece ends them.
pub proof fn law_logs_are_passed_on(
    request: LogRequest,
    found: Option<PodTask>,
    node: Result<String, RksMessage>,
    answer: Option<RksMessage>,
    r: (Option<RksMessage>, bool),
)
    requires
        call_ensures(log_node, (&request, &found), node),
        call_ensures(forward_log, (&request, answer), r),
    ensures
        node is Ok <==> (found matches Some(p) && p.spec.node_name is Some),
        node matches Ok(n) ==> found->0.spec.node_name == Some(n),
        node matches Err(m) ==> m is PodLogsError,
        (answer matches Some(m) && (m is PodLogsChunk || m is PodLogsError)) ==> r.0 == answer,
        (answer matches Some(m) && !(m is PodLogsChunk) && !(m is PodLogsError)) ==> r.0 is None && !r.1,
        r.1 <==> answer is None || (answer matches Some(m) && (m is PodLogsError || (m is PodLogsChunk
            && m->PodLogsChunk_is_final))),
        answer is None ==> (r.0 matches Some(m) && m is PodLogsChunk && m->PodLogsChunk_is_final
            && m->data@.len() == 0),
{
}

/// Each message of a worker leads to what it reports: a heartbeat to the node, an address to the
/// pod, a piece of logs to whoever waits for it, and an answer about a volume to the question with
/// its number.
pub proof fn law_reports_reach_their_object(msg: RksMessage, step: WorkerStep)
    requires
        call_ensures(dispatch_worker, (msg,), step),
    ensures
        msg matches RksMessage::Heartbeat { node_name, status } ==> step == (WorkerStep::Heartbeat {
            node_name,
            status,
        }),
        msg matches RksMessage::SetPodip(p) ==> step == (WorkerStep::SetPodIp {
            pod_name: p.0,
            pod_ip: p.1,
        }),
        msg matches RksMessage::PodLogsChunk { namespace, pod_name, data, is_final } ==> (
        step matches WorkerStep::Answer { key, msg: m } && m == msg && key@ == namespace@ + "/"@
            + pod_name@),
        msg matches RksMessage::PodLogsError { namespace, pod_name, error } ==> (
        step matches WorkerStep::Answer { key, msg: m } && m == msg && key@ == namespace@ + "/"@
            + pod_name@),
        msg matches RksMessage::CsiResponse { id, message } ==> step == (WorkerStep::RouteResponse {
            id,
            message,
        }),
        msg is CreatePod || msg is Ack || msg is Error ==> step is Note,
{
}

/// What is asked for is shown as it is stored, and what is not stored is answered with an error.
pub proof fn law_stored_objects_are_shown(
    name: &str,
    pod: Option<PodTask>,
    rs: Option<ReplicaSet>,
    d: Option<Deployment>,
    svc: Option<ServiceTask>,
    a: RksMessage,
    b: RksMessage,
    c: RksMessage,
    e: RksMessage,
)
    requires
        call_ensures(show_pod, (name, pod), a),
        call_ensures(show_replicaset, (name, rs), b),
        call_ensures(show_deployment, (name, d), c),
        call_ensures(show_service, (name, svc), e),
    ensures
        pod matches Some(p) ==> a == RksMessage::GetPodRes(p),
        pod is None ==> a is Error,
        rs matches Some(p) ==> b == RksMessage::GetReplicaSetRes(p),
        rs is None ==> b is Error,
        d matches Some(p) ==> c == RksMessage::GetDeploymentRes(p),
        d is None ==> c is Error,
        svc matches Some(p) ==> e == RksMessage::GetServiceRes(p),
        svc is None ==> e is Error,
{
}

} // verus!

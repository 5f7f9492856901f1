//! The course of a user's request to create, update or delete a pod, a replica set or a
//! deployment.
use vstd::prelude::*;
use crate::commands::create::{serialization_failed, user_create};
use crate::node::dispatch;
use crate::node::dispatch::{
    create_deployment, create_replicaset, update_deployment, update_pod_status, update_replicaset,
    UserStep,
};
use crate::protocol::message;
use crate::protocol::message::RksMessage;
use crate::protocol::meta::{ObjectMeta, ResourceKind};
use crate::protocol::pod::{PodStatus, PodTask};
use crate::protocol::workload::{Deployment, ReplicaSet};
use crate::text::concat2;

verus! {

/// How far a request has come.
#[derive(Debug)]
pub enum WriteFlow {
    /// Whether one of the name is stored is looked up.
    CreatingPod(PodTask),
    CreatingReplicaSet(ReplicaSet),
    CreatingDeployment(Deployment),
    /// The stored one is read.
    UpdatingReplicaSet(ReplicaSet),
    UpdatingDeployment(Deployment),
    UpdatingStatus { pod_name: String, pod_namespace: String, status: PodStatus },
    /// The new pod is written.
    WritingPod,
    /// Another change is written.
    Writing,
    Ended,
}

/// What is to be done next.
#[derive(Debug)]
pub enum WriteAction {
    /// Read the object of the kind and the name.
    Read(ResourceKind, String),
    /// Store the object under the name.
    PutPod(String, PodTask),
    PutReplicaSet(String, ReplicaSet),
    PutDeployment(String, Deployment),
    /// Delete the object, its dependents in the background.
    Delete(ResourceKind, String),
    Reply(RksMessage),
    /// End without a reply: the error is noted.
    Fail(String),
}

/// What an action came to.
#[derive(Debug)]
pub enum WriteEvent {
    Pod(Option<PodTask>),
    ReplicaSet(Option<ReplicaSet>),
    Deployment(Option<Deployment>),
    Written,
    /// The object has no document that could be stored.
    NotSerialized(String),
    Failed(String),
}

/// Whether the request waits for an event of that kind. A generation that is to be counted has to
/// be one that can be.
pub open spec fn awaits(st: WriteFlow, event: WriteEvent) -> bool {
    event is Failed && !(st is Ended) || match st {
        WriteFlow::CreatingPod(_) => event is Pod,
        WriteFlow::UpdatingStatus { .. } => event is Pod,
        WriteFlow::CreatingReplicaSet(_) => event is ReplicaSet,
        WriteFlow::UpdatingReplicaSet(rs) => event matches WriteEvent::ReplicaSet(found) && (
        found matches Some(e) ==> e.spec.deep_view() != rs.spec.deep_view()
            ==> dispatch::can_count(e.metadata)),
        WriteFlow::CreatingDeployment(_) => event is Deployment,
        WriteFlow::UpdatingDeployment(d) => event matches WriteEvent::Deployment(found) && (
        found matches Some(e) ==> e.spec.deep_view() != d.spec.deep_view()
            ==> dispatch::can_count(e.metadata)),
        WriteFlow::WritingPod => event is Written || event is NotSerialized,
        WriteFlow::Writing => event is Written || event is NotSerialized,
        WriteFlow::Ended => false,
    }
}

/// What a request begins with; a step that writes no such object is given back.
pub open spec fn begins(step: UserStep, r: Result<(WriteFlow, WriteAction), UserStep>) -> bool {
    match step {
        UserStep::CreatePod(pod) => r == Ok::<(WriteFlow, WriteAction), UserStep>(
            (
                WriteFlow::CreatingPod(pod),
                WriteAction::Read(ResourceKind::Pod, pod.metadata.name),
            ),
        ),
        UserStep::DeletePod(name) => r == Ok::<(WriteFlow, WriteAction), UserStep>(
            (WriteFlow::Writing, WriteAction::Delete(ResourceKind::Pod, name)),
        ),
        UserStep::CreateReplicaSet(rs) => r == Ok::<(WriteFlow, WriteAction), UserStep>(
            (
                WriteFlow::CreatingReplicaSet(rs),
                WriteAction::Read(ResourceKind::ReplicaSet, rs.metadata.name),
            ),
        ),
        UserStep::UpdateReplicaSet(rs) => r == Ok::<(WriteFlow, WriteAction), UserStep>(
            (
                WriteFlow::UpdatingReplicaSet(rs),
                WriteAction::Read(ResourceKind::ReplicaSet, rs.metadata.name),
            ),
        ),
        UserStep::CreateDeployment(d) => r == Ok::<(WriteFlow, WriteAction), UserStep>(
            (
                WriteFlow::CreatingDeployment(d),
                WriteAction::Read(ResourceKind::Deployment, d.metadata.name),
            ),
        ),
        UserStep::UpdateDeployment(d) => r == Ok::<(WriteFlow, WriteAction), UserStep>(
            (
                WriteFlow::UpdatingDeployment(d),
                WriteAction::Read(ResourceKind::Deployment, d.metadata.name),
            ),
        ),
        UserStep::DeleteObject(kind, name) => r == Ok::<(WriteFlow, WriteAction), UserStep>(
            (WriteFlow::Writing, WriteAction::Delete(kind, name)),
        ),
        UserStep::UpdatePodStatus { pod_name, pod_namespace, status } => r == Ok::<
            (WriteFlow, WriteAction),
            UserStep,
        >(
            (
                WriteFlow::UpdatingStatus { pod_name, pod_namespace, status },
                WriteAction::Read(ResourceKind::Pod, pod_name),
            ),
        ),
        _ => r == Err::<(WriteFlow, WriteAction), UserStep>(step),
    }
}

/// Whether the request ends with the error.
pub open spec fn refused(r: (WriteFlow, WriteAction), m: Seq<char>) -> bool {
    r.0 is Ended && (r.1 matches WriteAction::Reply(reply) && message::reports(reply, m))
}

/// What follows an event. What was written is acknowledged; an error of the store gets no reply,
/// nor does an object that cannot be serialized, but for a new pod.
pub open spec fn follows(
    st: WriteFlow,
    event: WriteEvent,
    now: i128,
    r: (WriteFlow, WriteAction),
) -> bool {
    match (st, event) {
        (_, WriteEvent::Failed(m)) => r == (WriteFlow::Ended, WriteAction::Fail(m)),
        (WriteFlow::CreatingPod(pod), WriteEvent::Pod(found)) => match found {
            Some(_) => refused(r, "Pod "@ + pod.metadata.name@ + " already exists"@),
            None => r == (
                WriteFlow::WritingPod,
                WriteAction::PutPod(
                    pod.metadata.name,
                    PodTask {
                        metadata: ObjectMeta { creation_timestamp: Some(now), ..pod.metadata },
                        ..pod
                    },
                ),
            ),
        },
        (WriteFlow::CreatingReplicaSet(rs), WriteEvent::ReplicaSet(found)) => match found {
            Some(_) => refused(r, "rs \""@ + rs.metadata.name@ + "\" already exists"@),
            None => r == (
                WriteFlow::Writing,
                WriteAction::PutReplicaSet(
                    rs.metadata.name,
                    ReplicaSet { metadata: dispatch::created_at(rs.metadata, now), ..rs },
                ),
            ),
        },
        (WriteFlow::CreatingDeployment(d), WriteEvent::Deployment(found)) => match found {
            Some(_) => refused(r, "deployment \""@ + d.metadata.name@ + "\" already exists"@),
            None => r == (
                WriteFlow::Writing,
                WriteAction::PutDeployment(
                    d.metadata.name,
                    Deployment { metadata: dispatch::created_at(d.metadata, now), ..d },
                ),
            ),
        },
        (WriteFlow::UpdatingReplicaSet(rs), WriteEvent::ReplicaSet(found)) => r == (
            WriteFlow::Writing,
            WriteAction::PutReplicaSet(
                rs.metadata.name,
                match found {
                    None => rs,
                    Some(e) => dispatch::updated_replicaset(e, rs.spec),
                },
            ),
        ),
        (WriteFlow::UpdatingDeployment(d), WriteEvent::Deployment(found)) => r == (
            WriteFlow::Writing,
            WriteAction::PutDeployment(
                d.metadata.name,
                match found {
                    None => d,
                    Some(e) => dispatch::updated_deployment(e, d.spec),
                },
            ),
        ),
        (
            WriteFlow::UpdatingStatus { pod_name, pod_namespace, status },
            WriteEvent::Pod(found),
        ) => match found {
            Some(p) => r == (
                WriteFlow::Writing,
                WriteAction::PutPod(pod_name, dispatch::with_status(p, status)),
            ),
            None => refused(
                r,
                "PodTask "@ + pod_namespace@ + "/"@ + pod_name@ + " not found"@,
            ),
        },
        (WriteFlow::WritingPod, WriteEvent::Written) => r == (
            WriteFlow::Ended,
            WriteAction::Reply(RksMessage::Ack),
        ),
        (WriteFlow::WritingPod, WriteEvent::NotSerialized(e)) => refused(
            r,
            "Serialization error: "@ + e@,
        ),
        (WriteFlow::Writing, WriteEvent::Written) => r == (
            WriteFlow::Ended,
            WriteAction::Reply(RksMessage::Ack),
        ),
        (WriteFlow::Writing, WriteEvent::NotSerialized(e)) => r == (
            WriteFlow::Ended,
            WriteAction::Fail(e),
        ),
        _ => false,
    }
}

/// Begins a user's request to create, update or delete a pod, a replica set or a deployment. Any
/// other step is given back.
pub fn begin_write(step: UserStep) -> (r: Result<(WriteFlow, WriteAction), UserStep>)
    ensures
        begins(step, r),
{
    match step {
        UserStep::CreatePod(pod) => {
            let read = WriteAction::Read(ResourceKind::Pod, pod.metadata.name.clone());
            Ok((WriteFlow::CreatingPod(pod), read))
        },
        UserStep::DeletePod(name) => Ok(
            (WriteFlow::Writing, WriteAction::Delete(ResourceKind::Pod, name)),
        ),
        UserStep::CreateReplicaSet(rs) => {
            let read = WriteAction::Read(ResourceKind::ReplicaSet, rs.metadata.name.clone());
            Ok((WriteFlow::CreatingReplicaSet(rs), read))
        },
        UserStep::UpdateReplicaSet(rs) => {
            let read = WriteAction::Read(ResourceKind::ReplicaSet, rs.metadata.name.clone());
            Ok((WriteFlow::UpdatingReplicaSet(rs), read))
        },
        UserStep::CreateDeployment(d) => {
            let read = WriteAction::Read(ResourceKind::Deployment, d.metadata.name.clone());
            Ok((WriteFlow::CreatingDeployment(d), read))
        },
        UserStep::UpdateDeployment(d) => {
            let read = WriteAction::Read(ResourceKind::Deployment, d.metadata.name.clone());
            Ok((WriteFlow::UpdatingDeployment(d), read))
        },
        UserStep::DeleteObject(kind, name) => Ok(
            (WriteFlow::Writing, WriteAction::Delete(kind, name)),
        ),
        UserStep::UpdatePodStatus { pod_name, pod_namespace, status } => {
            let read = WriteAction::Read(ResourceKind::Pod, pod_name.clone());
            Ok((WriteFlow::UpdatingStatus { pod_name, pod_namespace, status }, read))
        },
        other => Err(other),
    }
}

/// What follows an event in the course of a request, at a time.
pub fn write_step(st: WriteFlow, event: WriteEvent, now: i128) -> (r: (WriteFlow, WriteAction))
    requires
        awaits(st, event),
    ensures
        follows(st, event, now, r),
{
    match (st, event) {
        (_, WriteEvent::Failed(m)) => (WriteFlow::Ended, WriteAction::Fail(m)),
        (WriteFlow::CreatingPod(pod), WriteEvent::Pod(found)) => {
            let name = pod.metadata.name.clone();
            match user_create(pod, found.is_some(), now) {
                Ok(p) => (WriteFlow::WritingPod, WriteAction::PutPod(name, p)),
                Err(m) => (WriteFlow::Ended, WriteAction::Reply(m)),
            }
        },
        (WriteFlow::CreatingReplicaSet(rs), WriteEvent::ReplicaSet(found)) => {
            let name = rs.metadata.name.clone();
            match create_replicaset(rs, found.is_some(), now) {
                Ok(rs) => (WriteFlow::Writing, WriteAction::PutReplicaSet(name, rs)),
                Err(m) => (WriteFlow::Ended, WriteAction::Reply(m)),
            }
        },
        (WriteFlow::CreatingDeployment(d), WriteEvent::Deployment(found)) => {
            let name = d.metadata.name.clone();
            match create_deployment(d, found.is_some(), now) {
                Ok(d) => (WriteFlow::Writing, WriteAction::PutDeployment(name, d)),
                Err(m) => (WriteFlow::Ended, WriteAction::Reply(m)),
            }
        },
        (WriteFlow::UpdatingReplicaSet(rs), WriteEvent::ReplicaSet(found)) => {
            let name = rs.metadata.name.clone();
            (WriteFlow::Writing, WriteAction::PutReplicaSet(name, update_replicaset(rs, found)))
        },
        (WriteFlow::UpdatingDeployment(d), WriteEvent::Deployment(found)) => {
            let name = d.metadata.name.clone();
            (WriteFlow::Writing, WriteAction::PutDeployment(name, update_deployment(d, found)))
        },
        (
            WriteFlow::UpdatingStatus { pod_name, pod_namespace, status },
            WriteEvent::Pod(found),
        ) => match update_pod_status(found, pod_name.as_str(), pod_namespace.as_str(), status) {
            Ok(p) => (WriteFlow::Writing, WriteAction::PutPod(pod_name, p)),
            Err(m) => (WriteFlow::Ended, WriteAction::Reply(m)),
        },
        (WriteFlow::WritingPod, WriteEvent::NotSerialized(e)) => (
            WriteFlow::Ended,
            WriteAction::Reply(serialization_failed(e.as_str())),
        ),
        (WriteFlow::Writing, WriteEvent::NotSerialized(e)) => (
            WriteFlow::Ended,
            WriteAction::Fail(e),
        ),
        _ => (WriteFlow::Ended, WriteAction::Reply(RksMessage::Ack)),
    }
}

/// The reply to a request to go back to a revision of a deployment.
pub fn rollback_reply(outcome: Result<(), String>) -> (r: RksMessage)
    ensures
        match outcome {
            Ok(_) => r == RksMessage::Ack,
            Err(e) => message::reports(r, "Rollback failed: "@ + e@),
        },
{
    match outcome {
        Ok(_) => RksMessage::Ack,
        Err(e) => RksMessage::Error(concat2("Rollback failed: ", e.as_str())),
    }
}

/// The reply that the revisions of a deployment could not be found out.
pub fn history_failed(e: &str) -> (r: RksMessage)
    ensures
        message::reports(r, "Failed to get history: "@ + e@),
{
    RksMessage::Error(concat2("Failed to get history: ", e))
}

/// The number of events that a request waits for at most.
pub open spec fn events_left(st: WriteFlow) -> nat {
    match st {
        WriteFlow::Ended => 0,
        WriteFlow::WritingPod => 1,
        WriteFlow::Writing => 1,
        _ => 2,
    }
}

/// A request comes to its end, where it gets one reply, unless the store fails or an object other
/// than a new pod cannot be serialized. It is acknowledged exactly when its change was written.
pub proof fn law_written_changes_are_acknowledged(
    st: WriteFlow,
    event: WriteEvent,
    now: i128,
    r: (WriteFlow, WriteAction),
)
    requires
        awaits(st, event),
        follows(st, event, now, r),
    ensures
        events_left(r.0) < events_left(st),
        r.0 is Ended <==> (r.1 is Reply || r.1 is Fail),
        r.1 is Fail <==> event is Failed || (event is NotSerialized && st is Writing),
        r.1 == WriteAction::Reply(RksMessage::Ack) <==> event is Written,
        event is Written ==> st is WritingPod || st is Writing,
{
}

/// What is created must not be stored yet: then it is stored under its name as it came, with the
/// time; otherwise an error is answered and nothing is stored.
pub proof fn law_creation_stores_what_is_new(
    pod: PodTask,
    had: Option<PodTask>,
    rs: ReplicaSet,
    had_rs: Option<ReplicaSet>,
    d: Deployment,
    had_d: Option<Deployment>,
    now: i128,
    a: (WriteFlow, WriteAction),
    b: (WriteFlow, WriteAction),
    c: (WriteFlow, WriteAction),
)
    requires
        call_ensures(write_step, (WriteFlow::CreatingPod(pod), WriteEvent::Pod(had), now), a),
        call_ensures(
            write_step,
            (WriteFlow::CreatingReplicaSet(rs), WriteEvent::ReplicaSet(had_rs), now),
            b,
        ),
        call_ensures(
            write_step,
            (WriteFlow::CreatingDeployment(d), WriteEvent::Deployment(had_d), now),
            c,
        ),
    ensures
        had is Some ==> a.0 is Ended && (a.1 matches WriteAction::Reply(m) && m is Error),
        had is None ==> (a.1 matches WriteAction::PutPod(name, p) && name == pod.metadata.name
            && p.spec == pod.spec && p.status == pod.status && p.metadata.uid == pod.metadata.uid
            && p.metadata.labels == pod.metadata.labels && p.metadata.creation_timestamp == Some(
            now,
        )),
        had_rs is Some ==> b.0 is Ended && (b.1 matches WriteAction::Reply(m) && m is Error),
        had_rs is None ==> (b.1 matches WriteAction::PutReplicaSet(name, p) && name
            == rs.metadata.name && p.spec == rs.spec && p.metadata.uid == rs.metadata.uid
            && p.metadata.labels == rs.metadata.labels && p.metadata.creation_timestamp is Some),
        had_d is Some ==> c.0 is Ended && (c.1 matches WriteAction::Reply(m) && m is Error),
        had_d is None ==> (c.1 matches WriteAction::PutDeployment(name, p) && name
            == d.metadata.name && p.spec == d.spec && p.metadata.uid == d.metadata.uid
            && p.metadata.labels == d.metadata.labels && p.metadata.creation_timestamp is Some),
{
}

/// A request begins at the object that it names; deleting asks for nothing else.
pub proof fn law_requests_begin_at_their_object(
    step: UserStep,
    r: Result<(WriteFlow, WriteAction), UserStep>,
)
    requires
        call_ensures(begin_write, (step,), r),
    ensures
        step matches UserStep::DeletePod(name) ==> (r matches Ok(x) && x.1 == WriteAction::Delete(
            ResourceKind::Pod,
            name,
        )),
        step matches UserStep::DeleteObject(kind, name) ==> (r matches Ok(x) && x.1
            == WriteAction::Delete(kind, name)),
        step matches UserStep::CreatePod(p) ==> (r matches Ok(x) && x.0 == WriteFlow::CreatingPod(p)
            && x.1 == WriteAction::Read(ResourceKind::Pod, p.metadata.name)),
        step matches UserStep::CreateReplicaSet(p) ==> (r matches Ok(x) && x.0
            == WriteFlow::CreatingReplicaSet(p) && x.1 == WriteAction::Read(
            ResourceKind::ReplicaSet,
            p.metadata.name,
        )),
        step matches UserStep::UpdateReplicaSet(p) ==> (r matches Ok(x) && x.0
            == WriteFlow::UpdatingReplicaSet(p) && x.1 == WriteAction::Read(
            ResourceKind::ReplicaSet,
            p.metadata.name,
        )),
        step matches UserStep::CreateDeployment(p) ==> (r matches Ok(x) && x.0
            == WriteFlow::CreatingDeployment(p) && x.1 == WriteAction::Read(
            ResourceKind::Deployment,
            p.metadata.name,
        )),
        step matches UserStep::UpdateDeployment(p) ==> (r matches Ok(x) && x.0
            == WriteFlow::UpdatingDeployment(p) && x.1 == WriteAction::Read(
            ResourceKind::Deployment,
            p.metadata.name,
        )),
{
}

/// An update writes the new specification to the stored object, which stays the same object; what
/// is not stored is written as it came.
pub proof fn law_updates_write_the_new_specification(
    rs: ReplicaSet,
    had_rs: Option<ReplicaSet>,
    d: Deployment,
    had_d: Option<Deployment>,
    now: i128,
    b: (WriteFlow, WriteAction),
    c: (WriteFlow, WriteAction),
)
    requires
        call_ensures(
            write_step,
            (WriteFlow::UpdatingReplicaSet(rs), WriteEvent::ReplicaSet(had_rs), now),
            b,
        ),
        call_ensures(
            write_step,
            (WriteFlow::UpdatingDeployment(d), WriteEvent::Deployment(had_d), now),
            c,
        ),
    ensures
        b.1 matches WriteAction::PutReplicaSet(name, p) && name == rs.metadata.name
            && p.spec.deep_view() == rs.spec.deep_view() && (had_rs is None ==> p == rs) && (
        had_rs matches Some(e) ==> p.metadata.uid == e.metadata.uid && p.metadata.labels
            == e.metadata.labels && p.status == e.status && p.metadata.creation_timestamp
            == e.metadata.creation_timestamp),
        c.1 matches WriteAction::PutDeployment(name, p) && name == d.metadata.name
            && p.spec.deep_view() == d.spec.deep_view() && (had_d is None ==> p == d) && (
        had_d matches Some(e) ==> p.metadata.uid == e.metadata.uid && p.metadata.labels
            == e.metadata.labels && p.status == e.status && p.metadata.creation_timestamp
            == e.metadata.creation_timestamp),
{
}

} // verus!

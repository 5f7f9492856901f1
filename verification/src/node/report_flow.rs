//! The course of a worker's report: its heartbeat, or the address of a pod.
use vstd::prelude::*;
use crate::node::dispatch;
use crate::node::dispatch::{set_pod_ip, WorkerStep};
use crate::node::heartbeat;
use crate::node::heartbeat::handle_heartbeat;
use crate::protocol::message::RksMessage;
use crate::protocol::node::{Node, NodeStatus};
use crate::protocol::pod::PodTask;

verus! {

/// How far a report has come.
#[derive(Debug)]
pub enum ReportFlow {
    /// The node that sent its heartbeat is read.
    ReadingNode { node_name: String, status: NodeStatus },
    /// The node is written.
    WritingNode,
    /// The pod that got an address is read.
    ReadingPod { pod_name: String, pod_ip: String },
    /// The pod is written.
    WritingPod,
    Ended,
}

/// What is to be done next.
#[derive(Debug)]
pub enum ReportAction {
    ReadNode(String),
    PutNode(String, Node),
    ReadPod(String),
    PutPod(String, PodTask),
    Reply(RksMessage),
    /// End without a reply.
    Nothing,
    /// End without a reply: the error is noted.
    Fail(String),
}

/// What an action came to.
#[derive(Debug)]
pub enum ReportEvent {
    Node(Option<Node>),
    Pod(Option<PodTask>),
    Written,
    Failed(String),
}

/// Whether the report waits for an event of that kind.
pub open spec fn awaits(st: ReportFlow, event: ReportEvent) -> bool {
    event is Failed && !(st is Ended) || match st {
        ReportFlow::ReadingNode { .. } => event is Node,
        ReportFlow::ReadingPod { .. } => event is Pod,
        ReportFlow::WritingNode => event is Written,
        ReportFlow::WritingPod => event is Written,
        ReportFlow::Ended => false,
    }
}

/// What a report begins with; a step that reports nothing of the kind is given back.
pub open spec fn begins(step: WorkerStep, r: Result<(ReportFlow, ReportAction), WorkerStep>) -> bool {
    match step {
        WorkerStep::Heartbeat { node_name, status } => r == Ok::<
            (ReportFlow, ReportAction),
            WorkerStep,
        >((ReportFlow::ReadingNode { node_name, status }, ReportAction::ReadNode(node_name))),
        WorkerStep::SetPodIp { pod_name, pod_ip } => r == Ok::<
            (ReportFlow, ReportAction),
            WorkerStep,
        >((ReportFlow::ReadingPod { pod_name, pod_ip }, ReportAction::ReadPod(pod_name))),
        _ => r == Err::<(ReportFlow, ReportAction), WorkerStep>(step),
    }
}

/// Whether the heartbeat is acknowledged.
pub open spec fn acknowledges(r: (ReportFlow, ReportAction)) -> bool {
    r == (ReportFlow::Ended, ReportAction::Reply(RksMessage::Ack))
}

/// What follows an event at a time. A heartbeat is acknowledged, that of an unknown node too; the
/// address of a pod gets no reply.
pub open spec fn follows(
    st: ReportFlow,
    event: ReportEvent,
    now: Seq<char>,
    r: (ReportFlow, ReportAction),
) -> bool {
    match (st, event) {
        (_, ReportEvent::Failed(m)) => r == (ReportFlow::Ended, ReportAction::Fail(m)),
        (ReportFlow::ReadingNode { node_name, status }, ReportEvent::Node(found)) => match found {
            None => acknowledges(r),
            Some(n) => r.0 is WritingNode && (r.1 matches ReportAction::PutNode(name, after) && name
                == node_name && heartbeat::beats(n, after, status, now)),
        },
        (ReportFlow::WritingNode, ReportEvent::Written) => acknowledges(r),
        (ReportFlow::ReadingPod { pod_name, pod_ip }, ReportEvent::Pod(found)) => match found {
            None => r == (ReportFlow::Ended, ReportAction::Nothing),
            Some(p) => r == (
                ReportFlow::WritingPod,
                ReportAction::PutPod(pod_name, dispatch::with_pod_ip(p, pod_ip)),
            ),
        },
        (ReportFlow::WritingPod, ReportEvent::Written) => r == (
            ReportFlow::Ended,
            ReportAction::Nothing,
        ),
        _ => false,
    }
}

/// Begins with a worker's heartbeat or the address of a pod. Any other step is given back.
pub fn begin_report(step: WorkerStep) -> (r: Result<(ReportFlow, ReportAction), WorkerStep>)
    ensures
        begins(step, r),
{
    match step {
        WorkerStep::Heartbeat { node_name, status } => {
            let read = ReportAction::ReadNode(node_name.clone());
            Ok((ReportFlow::ReadingNode { node_name, status }, read))
        },
        WorkerStep::SetPodIp { pod_name, pod_ip } => {
            let read = ReportAction::ReadPod(pod_name.clone());
            Ok((ReportFlow::ReadingPod { pod_name, pod_ip }, read))
        },
        other => Err(other),
    }
}

/// What follows an event in the course of a report, at a time given as text.
pub fn report_step(st: ReportFlow, event: ReportEvent, now: String) -> (r: (
    ReportFlow,
    ReportAction,
))
    requires
        awaits(st, event),
    ensures
        follows(st, event, now@, r),
{
    match (st, event) {
        (_, ReportEvent::Failed(m)) => (ReportFlow::Ended, ReportAction::Fail(m)),
        (ReportFlow::ReadingNode { node_name, status }, ReportEvent::Node(Some(n))) => {
            let mut n = n;
            handle_heartbeat(&mut n, status, now);
            (ReportFlow::WritingNode, ReportAction::PutNode(node_name, n))
        },
        (ReportFlow::ReadingPod { pod_name, pod_ip }, ReportEvent::Pod(Some(p))) => {
            let mut p = p;
            set_pod_ip(&mut p, pod_ip);
            (ReportFlow::WritingPod, ReportAction::PutPod(pod_name, p))
        },
        (ReportFlow::ReadingPod { .. }, _) => (ReportFlow::Ended, ReportAction::Nothing),
        (ReportFlow::WritingPod, _) => (ReportFlow::Ended, ReportAction::Nothing),
        _ => (ReportFlow::Ended, ReportAction::Reply(RksMessage::Ack)),
    }
}

/// The number of events that a report waits for at most.
pub open spec fn events_left(st: ReportFlow) -> nat {
    match st {
        ReportFlow::Ended => 0,
        ReportFlow::WritingNode => 1,
        ReportFlow::WritingPod => 1,
        _ => 2,
    }
}

/// Whether the report is a heartbeat.
pub open spec fn is_heartbeat(st: ReportFlow) -> bool {
    st is ReadingNode || st is WritingNode
}

/// A report comes to its end. A heartbeat is acknowledged then, unless the store fails, and the
/// address of a pod never is.
pub proof fn law_heartbeats_are_acknowledged(
    st: ReportFlow,
    event: ReportEvent,
    now: Seq<char>,
    r: (ReportFlow, ReportAction),
)
    requires
        awaits(st, event),
        follows(st, event, now, r),
    ensures
        events_left(r.0) < events_left(st),
        r.0 is Ended || is_heartbeat(r.0) == is_heartbeat(st),
        r.0 is Ended && is_heartbeat(st) && !(event is Failed) <==> r.1 == ReportAction::Reply(
            RksMessage::Ack,
        ),
        r.1 is Reply ==> r.1 == ReportAction::Reply(RksMessage::Ack),
{
}

/// A heartbeat is written to the node that sent it, and the address of a pod to the pod; a node
/// that is not known is answered all the same, and a pod that is not known is left alone.
pub proof fn law_reports_are_written_to_their_object(
    node_name: String,
    status: NodeStatus,
    pod_name: String,
    pod_ip: String,
    now: String,
    node: Option<Node>,
    pod: Option<PodTask>,
    a: (ReportFlow, ReportAction),
    b: (ReportFlow, ReportAction),
)
    requires
        call_ensures(
            report_step,
            (ReportFlow::ReadingNode { node_name, status }, ReportEvent::Node(node), now),
            a,
        ),
        call_ensures(
            report_step,
            (ReportFlow::ReadingPod { pod_name, pod_ip }, ReportEvent::Pod(pod), now),
            b,
        ),
    ensures
        node is None ==> a.0 is Ended && a.1 == ReportAction::Reply(RksMessage::Ack),
        node matches Some(n) ==> a.0 is WritingNode && (a.1 matches ReportAction::PutNode(name, m)
            && name == node_name && m.metadata == n.metadata),
        pod is None ==> b.0 is Ended && b.1 is Nothing,
        pod matches Some(p) ==> b.0 is WritingPod && (b.1 matches ReportAction::PutPod(name, q)
            && name == pod_name && q.status.pod_ip == Some(pod_ip) && q.spec == p.spec && q.metadata
            == p.metadata && q.status.phase == p.status.phase),
{
}

} // verus!

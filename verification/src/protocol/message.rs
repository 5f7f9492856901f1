//! Messages between users, the control plane and workers.
use vstd::prelude::*;
use crate::csi::volume::CsiMessage;
use crate::network::address::{Ipv4Addr, Ipv4Network, Ipv6Addr, Ipv6Network};
use crate::protocol::node::{Node, NodeStatus};
use crate::protocol::pod::{PodStatus, PodTask};
use crate::protocol::service::ServiceTask;
use crate::protocol::workload::{Deployment, ReplicaSet};
use crate::vault::{IssueCertificateRequest, RegistryCredential};

verus! {

/// Where a route leads.
#[derive(Debug, Clone, Copy, PartialEq, Eq, Structural)]
pub enum IpNetwork {
    V4(Ipv4Network),
    V6(Ipv6Network),
}

/// What a route goes through.
#[derive(Debug, Clone, Copy, PartialEq, Eq, Structural)]
pub enum IpAddr {
    V4(Ipv4Addr),
    V6(Ipv6Addr),
}

/// A route to another node's pods.
#[derive(Debug, Clone, Copy, PartialEq, Eq, Structural)]
pub struct Route {
    pub dst: Option<IpNetwork>,
    pub gateway: Option<IpAddr>,
    pub oif_index: Option<u32>,
}

/// The network settings of a node, as lines of names and values.
#[derive(Debug)]
pub struct NodeNetworkConfig {
    pub node_id: String,
    pub subnet_env: String,
}

/// A request for the logs of a pod.
#[derive(Debug)]
pub struct LogRequest {
    pub pod_name: String,
    pub namespace: String,
    pub container_name: Option<String>,
    pub follow: bool,
    pub tail_lines: Option<u64>,
    pub since_time: Option<String>,
    pub timestamps: bool,
    pub previous: bool,
}

/// A certificate that was issued, and its private key.
#[derive(Debug)]
pub struct IssuedCertificate {
    pub certificate: String,
    pub private_key: String,
}

/// A message.
#[derive(Debug)]
pub enum RksMessage {
    RegisterNode(Node),
    UserRequest(String),
    CertificateSign { req: IssueCertificateRequest, token: String },
    Certificate(IssuedCertificate),
    Heartbeat { node_name: String, status: NodeStatus },
    SetPodip((String, String)),
    SetNetwork(NodeNetworkConfig),
    UpdateRoutes(String, Vec<Route>),
    SetNftablesRules(String),
    UpdateNftablesRules(String),
    SetRegistryCredentials(Vec<RegistryCredential>),
    CreatePod(PodTask),
    DeletePod(String),
    GetPodByUid(u128),
    GetPodByUidRes(PodTask),
    GetPod(String),
    GetPodRes(PodTask),
    ListPod,
    ListPodRes(Vec<PodTask>),
    CreateReplicaSet(ReplicaSet),
    UpdateReplicaSet(ReplicaSet),
    DeleteReplicaSet(String),
    GetReplicaSet(String),
    GetReplicaSetRes(ReplicaSet),
    ListReplicaSet,
    ListReplicaSetRes(Vec<ReplicaSet>),
    CreateDeployment(Deployment),
    UpdateDeployment(Deployment),
    DeleteDeployment(String),
    GetDeployment(String),
    GetDeploymentRes(Deployment),
    ListDeployment,
    ListDeploymentRes(Vec<Deployment>),
    RollbackDeployment { name: String, revision: i64 },
    GetDeploymentHistory(String),
    CreateService(ServiceTask),
    UpdateService(ServiceTask),
    DeleteService(String),
    GetService(String),
    GetServiceRes(ServiceTask),
    ListService,
    ListServiceRes(Vec<ServiceTask>),
    GetNodeCount,
    UpdatePodStatus { pod_name: String, pod_namespace: String, pod_status: PodStatus },
    GetPodLogs(LogRequest),
    PodLogsChunk { namespace: String, pod_name: String, data: Vec<u8>, is_final: bool },
    PodLogsError { namespace: String, pod_name: String, error: String },
    /// A request about a volume to a worker.
    CsiRequest { id: u128, message: CsiMessage },
    /// A worker's answer to the request with the identifier.
    CsiResponse { id: u128, message: CsiMessage },
    Ack,
    Error(String),
    /// A message that the control plane only passes on.
    Other,
}

/// Whether the message reports an error with the text.
pub open spec fn reports(msg: RksMessage, m: Seq<char>) -> bool {
    msg matches RksMessage::Error(t) && t@ == m
}

} // verus!

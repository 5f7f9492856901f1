//! Worker nodes.
use vstd::prelude::*;
use crate::protocol::labels::LabelMap;
use crate::protocol::meta::ObjectMeta;
use crate::protocol::workload::ConditionStatus;

verus! {

/// What a taint says of a node.
#[derive(Debug, Clone, Copy, PartialEq, Eq, Structural)]
pub enum TaintKey {
    NodeNotReady,
    NodeMemoryPressure,
    NodeDiskPressure,
    NodeNetworkUnavailable,
}

/// What a taint does to pods that do not tolerate it.
#[derive(Debug, Clone, Copy, PartialEq, Eq, Structural)]
pub enum TaintEffect {
    NoSchedule,
    NoExecute,
}

#[derive(Debug, Clone, Copy, PartialEq, Eq, Structural)]
pub struct Taint {
    pub key: TaintKey,
    pub effect: TaintEffect,
}

/// Node spec: the pod network assigned to the node, and its taints.
#[derive(Debug)]
pub struct NodeSpec {
    pub pod_cidr: String,
    pub taints: Vec<Taint>,
}

/// Node address entry, such as an internal IP or a host name.
#[derive(Debug)]
pub struct NodeAddress {
    pub address_type: String,
    pub address: String,
}

/// The kinds of node conditions.
#[derive(Debug, Clone, Copy, PartialEq, Eq, Structural)]
pub enum NodeConditionType {
    Ready,
    MemoryPressure,
    DiskPressure,
    PIDPressure,
    NetworkUnavailable,
}

/// Node condition entry. The time of the last heartbeat is RFC 3339 text.
#[derive(Debug)]
pub struct NodeCondition {
    pub condition_type: NodeConditionType,
    pub status: ConditionStatus,
    pub last_heartbeat_time: Option<String>,
}

/// Node status: total and schedulable resources, addresses and conditions.
#[derive(Debug)]
pub struct NodeStatus {
    pub capacity: LabelMap,
    pub allocatable: LabelMap,
    pub addresses: Vec<NodeAddress>,
    pub conditions: Vec<NodeCondition>,
}

/// A worker node.
#[derive(Debug)]
pub struct Node {
    pub api_version: String,
    pub kind: String,
    pub metadata: ObjectMeta,
    pub spec: NodeSpec,
    pub status: NodeStatus,
}

} // verus!

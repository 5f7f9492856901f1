//! Volumes and the messages about them.
use vstd::prelude::*;
use crate::protocol::labels::LabelMap;

verus! {

/// The identifier of a volume.
#[derive(Debug)]
pub struct VolumeId(pub String);

/// How a volume may be accessed.
#[derive(Debug, Clone, Copy, PartialEq, Eq, Structural)]
pub enum AccessMode {
    ReadWriteOnce,
    ReadOnlyMany,
    ReadWriteMany,
}

/// What a volume is used for.
#[derive(Debug, Clone, Copy, PartialEq, Eq, Structural)]
pub struct VolumeCapability {
    pub access_mode: AccessMode,
}

/// A wish for a volume.
#[derive(Debug)]
pub struct CreateVolumeRequest {
    pub name: String,
    pub capacity_bytes: u64,
    pub volume_capabilities: Vec<VolumeCapability>,
    pub parameters: LabelMap,
}

/// A part of the cluster, by the names and values that tell it apart.
#[derive(Debug)]
pub struct Topology {
    pub segments: LabelMap,
}

/// A volume.
#[derive(Debug)]
pub struct Volume {
    pub volume_id: VolumeId,
    pub capacity_bytes: u64,
    pub parameters: LabelMap,
    pub volume_context: LabelMap,
    /// The parts of the cluster that the volume can be reached from; none stands for all.
    pub accessible_topology: Vec<Topology>,
}

/// Why an operation on volumes failed.
#[derive(Debug)]
pub enum CsiError {
    InvalidArgument(String),
    VolumeNotFound(String),
    Internal(String),
    Transport(String),
}

/// A message to a node about a volume, or its answer.
#[derive(Debug)]
pub enum CsiMessage {
    StageVolume {
        volume_id: VolumeId,
        staging_target_path: String,
        volume_capability: VolumeCapability,
        volume_context: LabelMap,
    },
    PublishVolume {
        volume_id: VolumeId,
        staging_target_path: String,
        target_path: String,
        volume_capability: VolumeCapability,
        read_only: bool,
    },
    UnstageVolume { volume_id: VolumeId, staging_target_path: String },
    UnpublishVolume { volume_id: VolumeId, target_path: String },
    Done,
    Error(CsiError),
}

impl VolumeId {
    /// An equal identifier.
    pub fn copy(&self) -> (r: VolumeId)
        ensures
            r == *self,
    {
        VolumeId(self.0.clone())
    }
}

} // verus!

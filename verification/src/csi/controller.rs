//! Making and deleting volumes.
use vstd::prelude::*;
use crate::csi::volume::{CreateVolumeRequest, CsiError, Volume, VolumeId};
use crate::protocol::labels::LabelMap;
use crate::protocol::value::Value;
use crate::random;
use crate::random::{new_uid, uid_to_text};
use crate::text::concat2;

verus! {

/// The identifier of a volume that is made of a unique identifier.
pub open spec fn volume_id_text(uid: u128) -> Seq<char> {
    "vol-"@ + random::uid_text(uid)
}

/// Generate a unique volume ID with a `vol-` prefix.
pub fn generate_volume_id() -> (r: VolumeId)
    ensures
        exists|uid: u128| r.0@ == #[trigger] volume_id_text(uid),
        r.0@.len() == 40,
{
    let uid = new_uid();
    let r = VolumeId(concat2("vol-", uid_to_text(uid).as_str()));
    proof {
        assert(r.0@ == volume_id_text(uid));
        random::lemma_uid_text_length(uid);
        reveal_strlit("vol-");
    }
    r
}

/// What a node is told of a volume that is wished for.
pub open spec fn volume_context(req: CreateVolumeRequest) -> Map<Seq<char>, Seq<char>> {
    let m = Map::<Seq<char>, Seq<char>>::empty().insert("name"@, req.name@);
    if req.parameters@.contains_key("slayerfs_config"@) {
        m.insert("slayerfs_config"@, req.parameters@["slayerfs_config"@])
    } else {
        m
    }
}

/// Whether the volume is the one that is wished for.
pub open spec fn is_volume(v: Volume, id: VolumeId, req: CreateVolumeRequest) -> bool {
    &&& v.volume_id == id
    &&& v.capacity_bytes == req.capacity_bytes
    &&& v.parameters@ == req.parameters@
    &&& v.volume_context@ == volume_context(req)
    &&& v.accessible_topology@.len() == 0
}

/// Build a `Volume` from a `CreateVolumeRequest` and assigned ID.
pub fn build_volume(volume_id: VolumeId, req: &CreateVolumeRequest) -> (r: Volume)
    ensures
        is_volume(r, volume_id, *req),
{
    let mut volume_context = LabelMap::new();
    volume_context.insert("name".to_owned(), req.name.clone());
    if let Some(cfg) = req.parameters.get("slayerfs_config") {
        volume_context.insert("slayerfs_config".to_owned(), cfg.clone());
    }
    Volume {
        volume_id,
        capacity_bytes: req.capacity_bytes,
        parameters: req.parameters.copy(),
        volume_context,
        accessible_topology: Vec::new(),
    }
}

/// RKS-side CSI Controller implementation.
///
/// Making a volume records its metadata; the node makes it physically when it is staged.
pub struct RksCsiController;

impl RksCsiController {
    /// The volume to record with an identifier, or why there is none.
    pub fn volume_for(id: VolumeId, req: &CreateVolumeRequest) -> (r: Result<Volume, CsiError>)
        ensures
            match r {
                Ok(v) => req.name@.len() > 0 && is_volume(v, id, *req),
                Err(e) => req.name@.len() == 0 && (e matches CsiError::InvalidArgument(m) && m@
                    == "volume name is empty"@),
            },
    {
        if req.name.as_str().is_empty() {
            return Err(CsiError::InvalidArgument("volume name is empty".to_owned()));
        }
        Ok(build_volume(id, req))
    }

    /// The volume to record, with a fresh identifier, or why there is none.
    pub fn create_volume(req: &CreateVolumeRequest) -> (r: Result<Volume, CsiError>)
        ensures
            match r {
                Ok(v) => req.name@.len() > 0 && exists|uid: u128|
                    v.volume_id.0@ == #[trigger] volume_id_text(uid) && is_volume(
                        v,
                        v.volume_id,
                        *req,
                    ),
                Err(e) => req.name@.len() == 0 && (e matches CsiError::InvalidArgument(m) && m@
                    == "volume name is empty"@),
            },
    {
        let id = generate_volume_id();
        RksCsiController::volume_for(id, req)
    }

    /// Whether the metadata of a volume is to be deleted: deleting a volume that is not there
    /// is no error.
    pub fn delete_volume(stored: bool) -> (r: bool)
        ensures
            r == stored,
    {
        stored
    }

    /// Whether a volume can be used as wished: any way, if it is there.
    pub fn validate_volume_capabilities(volume_id: &VolumeId, stored: bool) -> (r: Result<
        bool,
        CsiError,
    >)
        ensures
            r == if stored {
                Ok::<bool, CsiError>(true)
            } else {
                Err::<bool, CsiError>(CsiError::VolumeNotFound(volume_id.0))
            },
    {
        if !stored {
            return Err(CsiError::VolumeNotFound(volume_id.0.clone()));
        }
        Ok(true)
    }

    /// The capacity that is left: none is known of.
    pub fn get_capacity() -> (r: u64)
        ensures
            r == 0,
    {
        0
    }
}

/// A volume is made as it was asked for, under the identifier that was drawn; a volume without a
/// name is refused.
pub proof fn law_volume_is_made_as_asked_for(
    id: VolumeId,
    req: CreateVolumeRequest,
    r: Result<Volume, CsiError>,
)
    requires
        call_ensures(RksCsiController::volume_for, (id, &req), r),
    ensures
        r is Ok <==> req.name@.len() > 0,
        r matches Err(e) ==> e is InvalidArgument,
        r matches Ok(v) ==> {
            &&& v.volume_id == id
            &&& v.capacity_bytes == req.capacity_bytes
            &&& v.parameters@ == req.parameters@
            &&& v.volume_context@.contains_key("name"@) && v.volume_context@["name"@] == req.name@
            &&& req.parameters@.contains_key("slayerfs_config"@)
                ==> v.volume_context@.contains_key("slayerfs_config"@)
                && v.volume_context@["slayerfs_config"@] == req.parameters@["slayerfs_config"@]
            &&& forall|k: Seq<char>| #[trigger]
                v.volume_context@.contains_key(k) ==> k == "name"@ || (k == "slayerfs_config"@
                    && req.parameters@.contains_key(k))
            &&& v.accessible_topology@.len() == 0
        },
{
    reveal_strlit("name");
    reveal_strlit("slayerfs_config");
    assert("name"@.len() != "slayerfs_config"@.len());
}

/// A volume can be used when it is stored, and is not found otherwise; only a stored volume is
/// deleted.
pub proof fn law_stored_volumes_can_be_used(
    id: VolumeId,
    stored: bool,
    valid: Result<bool, CsiError>,
    deleted: bool,
)
    requires
        call_ensures(RksCsiController::validate_volume_capabilities, (&id, stored), valid),
        call_ensures(RksCsiController::delete_volume, (stored,), deleted),
    ensures
        stored ==> valid == Ok::<bool, CsiError>(true),
        !stored ==> valid == Err::<bool, CsiError>(CsiError::VolumeNotFound(id.0)),
        deleted == stored,
{
}

} // verus!

//! Where the metadata of volumes is stored.
use vstd::prelude::*;
use crate::csi::volume::VolumeId;
use crate::text::concat2;

verus! {

/// The store of volumes: JSON under `/registry/volumes/{volume_id}`.
pub struct VolumeStore;

impl VolumeStore {
    /// Build the xline key for a given volume ID.
    pub fn key(volume_id: &VolumeId) -> (r: String)
        ensures
            r@ == "/registry/volumes/"@ + volume_id.0@,
    {
        concat2("/registry/volumes/", volume_id.0.as_str())
    }
}

/// Two volumes have two keys.
pub proof fn law_volume_keys_are_distinct(a: VolumeId, b: VolumeId)
    requires
        "/registry/volumes/"@ + a.0@ == "/registry/volumes/"@ + b.0@,
    ensures
        a.0@ == b.0@,
{
    let p = "/registry/volumes/"@;
    assert((p + a.0@).skip(p.len() as int) =~= a.0@);
    assert((p + b.0@).skip(p.len() as int) =~= b.0@);
}

} // verus!

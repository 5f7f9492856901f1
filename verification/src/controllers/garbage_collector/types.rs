//! References to objects.
use vstd::prelude::*;
use crate::protocol::meta::{same_flag, ObjectMeta, OwnerReference, ResourceKind};
use crate::text::str_eq;

verus! {

/// What tells one object from another.
#[derive(Debug)]
pub struct ObjectReference {
    pub kind: ResourceKind,
    pub name: String,
    pub uid: u128,
    pub namespace: String,
    pub block_owner_deletion: Option<bool>,
}

/// The contents of an object reference.
pub struct ObjectReferenceView {
    pub kind: ResourceKind,
    pub name: Seq<char>,
    pub uid: u128,
    pub namespace: Seq<char>,
    pub block_owner_deletion: Option<bool>,
}

impl View for ObjectReference {
    type V = ObjectReferenceView;

    open spec fn view(&self) -> ObjectReferenceView {
        ObjectReferenceView {
            kind: self.kind,
            name: self.name@,
            uid: self.uid,
            namespace: self.namespace@,
            block_owner_deletion: self.block_owner_deletion,
        }
    }
}

/// The flag of the first controlling owner, at or after `from`, that carries one.
pub open spec fn controller_flag(owners: Seq<OwnerReference>, from: int) -> Option<bool>
    decreases owners.len() - from,
{
    if from < 0 || from >= owners.len() {
        None
    } else if owners[from].controller && owners[from].block_owner_deletion is Some {
        owners[from].block_owner_deletion
    } else {
        controller_flag(owners, from + 1)
    }
}

/// The owner references of an object, none when the list is missing.
pub open spec fn owners_of(meta: ObjectMeta) -> Seq<OwnerReference> {
    match meta.owner_references {
        Some(v) => v@,
        None => Seq::empty(),
    }
}

impl ObjectReference {
    /// The reference that the metadata of an object of the given kind stands for.
    pub open spec fn of_meta(meta: ObjectMeta, kind: ResourceKind) -> ObjectReference {
        ObjectReference {
            kind,
            name: meta.name,
            uid: meta.uid,
            namespace: meta.namespace,
            block_owner_deletion: controller_flag(owners_of(meta), 0),
        }
    }

    /// The reference that an owner reference from the given namespace stands for.
    pub open spec fn of_owner(owner: OwnerReference, namespace: String) -> ObjectReference {
        ObjectReference {
            kind: owner.kind,
            name: owner.name,
            uid: owner.uid,
            namespace,
            block_owner_deletion: owner.block_owner_deletion,
        }
    }

    pub fn new(
        kind: ResourceKind,
        name: String,
        uid: u128,
        namespace: String,
        block_owner_deletion: Option<bool>,
    ) -> (r: Self)
        ensures
            r == (ObjectReference { kind, name, uid, namespace, block_owner_deletion }),
    {
        ObjectReference { kind, name, uid, namespace, block_owner_deletion }
    }

    /// The reference of an object, from its metadata.
    pub fn from_meta(meta: &ObjectMeta, kind: ResourceKind) -> (r: Self)
        ensures
            r == ObjectReference::of_meta(*meta, kind),
    {
        let mut flag: Option<bool> = None;
        match &meta.owner_references {
            Some(owners) => {
                let mut i: usize = 0;
                while i < owners.len()
                    invariant_except_break
                        flag is None,
                        i <= owners.len(),
                        controller_flag(owners@, 0) == controller_flag(owners@, i as int),
                    ensures
                        flag == controller_flag(owners@, 0),
                    decreases owners.len() - i,
                {
                    if owners[i].controller && owners[i].block_owner_deletion.is_some() {
                        flag = owners[i].block_owner_deletion;
                        break;
                    }
                    i = i + 1;
                }
            },
            None => {},
        }
        ObjectReference {
            kind,
            name: meta.name.clone(),
            uid: meta.uid,
            namespace: meta.namespace.clone(),
            block_owner_deletion: flag,
        }
    }

    /// The reference of an owner, seen from a dependent in the given namespace.
    pub fn from_owner_reference(or: &OwnerReference, namespace: String) -> (r: Self)
        ensures
            r == ObjectReference::of_owner(*or, namespace),
    {
        ObjectReference {
            kind: or.kind,
            name: or.name.clone(),
            uid: or.uid,
            namespace,
            block_owner_deletion: or.block_owner_deletion,
        }
    }

    /// Whether two references are equal.
    pub fn same(&self, other: &ObjectReference) -> (r: bool)
        ensures
            r == (self@ == other@),
    {
        self.kind == other.kind && str_eq(self.name.as_str(), other.name.as_str()) && self.uid
            == other.uid && str_eq(self.namespace.as_str(), other.namespace.as_str())
            && same_flag(self.block_owner_deletion, other.block_owner_deletion)
    }

    /// A copy of the reference.
    pub fn copy(&self) -> (r: ObjectReference)
        ensures
            r == *self,
    {
        ObjectReference {
            kind: self.kind,
            name: self.name.clone(),
            uid: self.uid,
            namespace: self.namespace.clone(),
            block_owner_deletion: self.block_owner_deletion,
        }
    }
}

/// A reference to an object holds what its metadata says, and one from an owner what the owner
/// reference says; two are the same only if they agree in all of it.
pub proof fn law_references_hold_what_is_said(
    meta: ObjectMeta,
    kind: ResourceKind,
    owner: OwnerReference,
    namespace: String,
    a: ObjectReference,
    b: ObjectReference,
    r: bool,
)
    requires
        call_ensures(ObjectReference::from_meta, (&meta, kind), a),
        call_ensures(ObjectReference::from_owner_reference, (&owner, namespace), b),
        call_ensures(ObjectReference::same, (&a, &b), r),
    ensures
        a.kind == kind && a.name == meta.name && a.uid == meta.uid && a.namespace == meta.namespace,
        b.kind == owner.kind && b.name == owner.name && b.uid == owner.uid && b.namespace
            == namespace && b.block_owner_deletion == owner.block_owner_deletion,
        r <==> a.kind == b.kind && a.name@ == b.name@ && a.uid == b.uid && a.namespace@
            == b.namespace@ && a.block_owner_deletion == b.block_owner_deletion,
        meta.owner_references is None ==> a.block_owner_deletion is None,
{
}

} // verus!

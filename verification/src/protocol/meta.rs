//! Object metadata: names, labels, owners and finalizers.
use vstd::prelude::*;
use crate::protocol::labels::LabelMap;
use crate::protocol::value::Value;

verus! {

/// The kinds of stored objects.
#[derive(Debug, Clone, Copy, PartialEq, Eq, Structural)]
pub enum ResourceKind {
    Pod,
    Service,
    Deployment,
    ReplicaSet,
    Endpoint,
    Job,
    Unknown,
}

/// Steps that must run before an object is removed.
#[derive(Debug, Clone, Copy, PartialEq, Eq, Structural)]
pub enum Finalizer {
    DeletingDependents,
    OrphanDependents,
}

/// What happens to the dependents of a deleted object.
#[derive(Debug, Clone, Copy, PartialEq, Eq, Structural)]
pub enum DeletePropagationPolicy {
    Foreground,
    Background,
    Orphan,
}

/// The API version and the kind of a document.
#[derive(Debug)]
pub struct TypeMeta {
    pub api_version: String,
    pub kind: String,
}

/// A reference from a dependent to its owner. Unique identifiers are 128-bit numbers.
#[derive(Debug)]
pub struct OwnerReference {
    pub api_version: String,
    pub kind: ResourceKind,
    pub name: String,
    pub uid: u128,
    pub controller: bool,
    pub block_owner_deletion: Option<bool>,
}

/// The metadata of an object. Times are nanoseconds since the Unix epoch.
#[derive(Debug)]
pub struct ObjectMeta {
    pub name: String,
    pub namespace: String,
    pub uid: u128,
    pub labels: LabelMap,
    pub annotations: LabelMap,
    pub owner_references: Option<Vec<OwnerReference>>,
    pub finalizers: Option<Vec<Finalizer>>,
    pub creation_timestamp: Option<i128>,
    pub deletion_timestamp: Option<i128>,
    pub generation: Option<i64>,
}

/// The contents of an owner reference.
pub struct OwnerReferenceView {
    pub api_version: Seq<char>,
    pub kind: ResourceKind,
    pub name: Seq<char>,
    pub uid: u128,
    pub controller: bool,
    pub block_owner_deletion: Option<bool>,
}

/// The contents of object metadata.
pub struct ObjectMetaView {
    pub name: Seq<char>,
    pub namespace: Seq<char>,
    pub uid: u128,
    pub labels: Map<Seq<char>, Seq<char>>,
    pub annotations: Map<Seq<char>, Seq<char>>,
    pub owner_references: Option<Seq<OwnerReferenceView>>,
    pub finalizers: Option<Seq<Finalizer>>,
    pub creation_timestamp: Option<i128>,
    pub deletion_timestamp: Option<i128>,
    pub generation: Option<i64>,
}

impl DeepView for ResourceKind {
    type V = ResourceKind;

    open spec fn deep_view(&self) -> ResourceKind {
        *self
    }
}

impl DeepView for Finalizer {
    type V = Finalizer;

    open spec fn deep_view(&self) -> Finalizer {
        *self
    }
}

impl DeepView for OwnerReference {
    type V = OwnerReferenceView;

    open spec fn deep_view(&self) -> OwnerReferenceView {
        OwnerReferenceView {
            api_version: self.api_version@,
            kind: self.kind,
            name: self.name@,
            uid: self.uid,
            controller: self.controller,
            block_owner_deletion: self.block_owner_deletion,
        }
    }
}

impl DeepView for ObjectMeta {
    type V = ObjectMetaView;

    open spec fn deep_view(&self) -> ObjectMetaView {
        ObjectMetaView {
            name: self.name@,
            namespace: self.namespace@,
            uid: self.uid,
            labels: self.labels@,
            annotations: self.annotations@,
            owner_references: self.owner_references.deep_view(),
            finalizers: self.finalizers.deep_view(),
            creation_timestamp: self.creation_timestamp,
            deletion_timestamp: self.deletion_timestamp,
            generation: self.generation,
        }
    }
}

impl Value for Finalizer {
    fn same(&self, other: &Self) -> (r: bool) {
        *self == *other
    }

    fn copy(&self) -> (r: Self) {
        *self
    }
}

/// Whether two optional flags are equal.
pub fn same_flag(a: Option<bool>, b: Option<bool>) -> (r: bool)
    ensures
        r == (a == b),
{
    match (a, b) {
        (Some(x), Some(y)) => x == y,
        (None, None) => true,
        _ => false,
    }
}

/// Whether an optional flag is the given one.
pub fn flag_is(a: Option<bool>, b: bool) -> (r: bool)
    ensures
        r == (a == Some(b)),
{
    match a {
        Some(x) => x == b,
        None => false,
    }
}

impl Value for OwnerReference {
    fn same(&self, other: &Self) -> (r: bool) {
        self.api_version.same(&other.api_version) && self.kind == other.kind && self.name.same(
            &other.name,
        ) && self.uid == other.uid && self.controller == other.controller && same_flag(
            self.block_owner_deletion,
            other.block_owner_deletion,
        )
    }

    fn copy(&self) -> (r: Self)
        ensures
            r == *self,
    {
        OwnerReference {
            api_version: self.api_version.clone(),
            kind: self.kind,
            name: self.name.clone(),
            uid: self.uid,
            controller: self.controller,
            block_owner_deletion: self.block_owner_deletion,
        }
    }
}

/// A copy of a list of owner references.
pub fn copy_owners(v: &Vec<OwnerReference>) -> (r: Vec<OwnerReference>)
    ensures
        r@ == v@,
{
    let mut out: Vec<OwnerReference> = Vec::new();
    for i in 0..v.len()
        invariant
            out@ == v@.take(i as int),
    {
        out.push(v[i].copy());
        assert(v@.take(i as int + 1) =~= v@.take(i as int).push(v@[i as int]));
    }
    assert(v@.take(v@.len() as int) =~= v@);
    out
}

impl Value for ObjectMeta {
    fn same(&self, other: &Self) -> (r: bool) {
        self.name.same(&other.name) && self.namespace.same(&other.namespace) && self.uid
            == other.uid && self.labels.same(&other.labels) && self.annotations.same(
            &other.annotations,
        ) && self.owner_references.same(&other.owner_references) && self.finalizers.same(
            &other.finalizers,
        ) && self.creation_timestamp.same(&other.creation_timestamp)
            && self.deletion_timestamp.same(&other.deletion_timestamp) && self.generation.same(
            &other.generation,
        )
    }

    fn copy(&self) -> (r: Self) {
        ObjectMeta {
            name: self.name.clone(),
            namespace: self.namespace.clone(),
            uid: self.uid,
            labels: self.labels.copy(),
            annotations: self.annotations.copy(),
            owner_references: self.owner_references.copy(),
            finalizers: self.finalizers.copy(),
            creation_timestamp: self.creation_timestamp,
            deletion_timestamp: self.deletion_timestamp,
            generation: self.generation,
        }
    }
}

/// Metadata that holds nothing but a name, a namespace and a unique identifier.
pub open spec fn bare_meta(name: Seq<char>, namespace: Seq<char>, uid: u128) -> ObjectMetaView {
    ObjectMetaView {
        name,
        namespace,
        uid,
        labels: Map::empty(),
        annotations: Map::empty(),
        owner_references: None,
        finalizers: None,
        creation_timestamp: None,
        deletion_timestamp: None,
        generation: None,
    }
}

impl ObjectMeta {
    /// Metadata that holds nothing but a name, a namespace and a unique identifier.
    pub fn bare(name: String, namespace: String, uid: u128) -> (r: ObjectMeta)
        ensures
            r.deep_view() == bare_meta(name@, namespace@, uid),
            r.name == name,
            r.namespace == namespace,
            r.owner_references is None,
            r.finalizers is None,
    {
        ObjectMeta {
            name,
            namespace,
            uid,
            labels: LabelMap::new(),
            annotations: LabelMap::new(),
            owner_references: None,
            finalizers: None,
            creation_timestamp: None,
            deletion_timestamp: None,
            generation: None,
        }
    }
}

/// The owners that an object lists, none where it has no list.
pub open spec fn listed_owners(m: ObjectMeta) -> Seq<OwnerReference> {
    match m.owner_references {
        Some(v) => v@,
        None => Seq::empty(),
    }
}

/// The namespace of an object that names none.
pub fn default_namespace() -> (r: String)
    ensures
        r@ == "default"@,
{
    "default".to_owned()
}

} // verus!

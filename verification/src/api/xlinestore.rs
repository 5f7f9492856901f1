//! How objects lie in the store: their keys, what is read of them, and their deletion.
use vstd::prelude::*;
use crate::controllers::manager;
use crate::controllers::manager::{decode_lossy, object_key};
use crate::protocol::meta::{
    DeletePropagationPolicy, Finalizer, ObjectMeta, ObjectMetaView, ResourceKind,
};
use crate::text;
use crate::text::{concat2, replace_text, trim_end_char};

verus! {

/// The store of the cluster's objects.
#[derive(Debug)]
pub struct XlineStore;

/// The key of a node.
pub fn node_key(name: &str) -> (r: String)
    ensures
        r@ == "/registry/nodes/"@ + name@,
{
    concat2("/registry/nodes/", name)
}

/// The key of the network configuration under a prefix, which may end in slashes.
pub fn network_config_key(prefix: &str) -> (r: String)
    ensures
        r@ == text::drop_trailing(prefix@, text::only('/')) + "/config"@,
{
    concat2(trim_end_char(prefix, '/').as_str(), "/config")
}

/// The key and the text of the network configuration for Flannel.
pub fn flannel_config() -> (r: (String, String))
    ensures
        r.0@ == "/coreos.com/network/config"@,
        r.1@
            == "{\n            \"Network\": \"10.244.0.0/16\",\n            \"SubnetLen\": 24,\n            \"Backend\": {\n                \"Type\": \"vxlan\",\n                \"VNI\": 1\n            }\n        }"@,
{
    (
        "/coreos.com/network/config".to_owned(),
        "{\n            \"Network\": \"10.244.0.0/16\",\n            \"SubnetLen\": 24,\n            \"Backend\": {\n                \"Type\": \"vxlan\",\n                \"VNI\": 1\n            }\n        }".to_owned(),
    )
}

/// The name of the object at a key: the key's text without the prefix, wherever that occurs.
pub open spec fn name_at(key: Seq<u8>, prefix: Seq<char>) -> Seq<char> {
    text::replaced(manager::lossy_text(key), prefix, Seq::empty())
}

/// The names of the objects at keys.
pub fn names_of(keys: &Vec<Vec<u8>>, prefix: &str) -> (r: Vec<String>)
    requires
        prefix@.len() > 0,
    ensures
        r@.len() == keys@.len(),
        forall|i: int| 0 <= i < r@.len() ==> (#[trigger] r@[i])@ == name_at(keys@[i]@, prefix@),
{
    let mut r: Vec<String> = Vec::new();
    for i in 0..keys.len()
        invariant
            prefix@.len() > 0,
            r@.len() == i,
            forall|j: int| 0 <= j < i ==> (#[trigger] r@[j])@ == name_at(keys@[j]@, prefix@),
    {
        r.push(object_name(keys[i].as_slice(), prefix));
    }
    r
}

/// The name of the object at a key.
pub fn object_name(key: &[u8], prefix: &str) -> (r: String)
    requires
        prefix@.len() > 0,
    ensures
        r@ == name_at(key@, prefix@),
{
    let key_text = decode_lossy(key);
    proof {
        reveal_strlit("");
        assert(""@ =~= Seq::<char>::empty());
    }
    replace_text(key_text.as_str(), prefix, "")
}

impl XlineStore {
    /// The names of the pods at keys.
    pub fn list_pod_names(keys: &Vec<Vec<u8>>) -> (r: Vec<String>)
        ensures
            r@.len() == keys@.len(),
            forall|i: int|
                0 <= i < r@.len() ==> (#[trigger] r@[i])@ == name_at(keys@[i]@, "/registry/pods/"@),
    {
        proof {
            reveal_strlit("/registry/pods/");
        }
        names_of(keys, "/registry/pods/")
    }
}

impl XlineStore {
    /// The names of the nodes at keys.
    pub fn list_node_names(keys: &Vec<Vec<u8>>) -> (r: Vec<String>)
        ensures
            r@.len() == keys@.len(),
            forall|i: int|
                0 <= i < r@.len() ==> (#[trigger] r@[i])@ == name_at(keys@[i]@, "/registry/nodes/"@),
    {
        proof {
            reveal_strlit("/registry/nodes/");
        }
        names_of(keys, "/registry/nodes/")
    }
}

impl XlineStore {
    /// The names of the services at keys.
    pub fn list_service_names(keys: &Vec<Vec<u8>>) -> (r: Vec<String>)
        ensures
            r@.len() == keys@.len(),
            forall|i: int|
                0 <= i < r@.len() ==> (#[trigger] r@[i])@ == name_at(keys@[i]@, "/registry/services/"@),
    {
        proof {
            reveal_strlit("/registry/services/");
        }
        names_of(keys, "/registry/services/")
    }
}

/// Whether the names, the texts and the revision are those of the entries that a read brought.
/// The revision of a reply without a header counts as 0.
pub open spec fn is_snapshot(
    r: (Vec<(String, String)>, i64),
    entries: Seq<(Vec<u8>, Vec<u8>)>,
    prefix: Seq<char>,
    revision: Option<i64>,
) -> bool {
    &&& r.0@.len() == entries.len()
    &&& forall|i: int|
        0 <= i < r.0@.len() ==> (#[trigger] r.0@[i]).0@ == name_at(entries[i].0@, prefix)
            && r.0@[i].1@ == manager::lossy_text(entries[i].1@)
    &&& r.1 == match revision {
        Some(rev) => rev,
        None => 0,
    }
}

/// The names and the texts of stored objects, with the revision at which they were read.
pub fn snapshot_with_rev(
    entries: &Vec<(Vec<u8>, Vec<u8>)>,
    prefix: &str,
    revision: Option<i64>,
) -> (r: (Vec<(String, String)>, i64))
    requires
        prefix@.len() > 0,
    ensures
        is_snapshot(r, entries@, prefix@, revision),
{
    let mut items: Vec<(String, String)> = Vec::new();
    for i in 0..entries.len()
        invariant
            prefix@.len() > 0,
            items@.len() == i,
            forall|j: int|
                0 <= j < i ==> (#[trigger] items@[j]).0@ == name_at(entries@[j].0@, prefix@)
                    && items@[j].1@ == manager::lossy_text(entries@[j].1@),
    {
        let name = object_name(entries[i].0.as_slice(), prefix);
        let value = decode_lossy(entries[i].1.as_slice());
        items.push((name, value));
    }
    let rev: i64 = match revision {
        Some(v) => v,
        None => 0,
    };
    (items, rev)
}

impl XlineStore {
    /// The stored pods: names and texts, with the revision at which they were read.
    pub fn pods_snapshot_with_rev(
        entries: &Vec<(Vec<u8>, Vec<u8>)>,
        revision: Option<i64>,
    ) -> (r: (Vec<(String, String)>, i64))
        ensures
            is_snapshot(r, entries@, "/registry/pods/"@, revision),
    {
        proof {
            reveal_strlit("/registry/pods/");
        }
        snapshot_with_rev(entries, "/registry/pods/", revision)
    }
}

impl XlineStore {
    /// The stored services: names and texts, with the revision at which they were read.
    pub fn services_snapshot_with_rev(
        entries: &Vec<(Vec<u8>, Vec<u8>)>,
        revision: Option<i64>,
    ) -> (r: (Vec<(String, String)>, i64))
        ensures
            is_snapshot(r, entries@, "/registry/services/"@, revision),
    {
        proof {
            reveal_strlit("/registry/services/");
        }
        snapshot_with_rev(entries, "/registry/services/", revision)
    }
}

impl XlineStore {
    /// The stored endpoints: names and texts, with the revision at which they were read.
    pub fn endpoints_snapshot_with_rev(
        entries: &Vec<(Vec<u8>, Vec<u8>)>,
        revision: Option<i64>,
    ) -> (r: (Vec<(String, String)>, i64))
        ensures
            is_snapshot(r, entries@, "/registry/endpoints/"@, revision),
    {
        proof {
            reveal_strlit("/registry/endpoints/");
        }
        snapshot_with_rev(entries, "/registry/endpoints/", revision)
    }
}

impl XlineStore {
    /// The stored replicasets: names and texts, with the revision at which they were read.
    pub fn replicasets_snapshot_with_rev(
        entries: &Vec<(Vec<u8>, Vec<u8>)>,
        revision: Option<i64>,
    ) -> (r: (Vec<(String, String)>, i64))
        ensures
            is_snapshot(r, entries@, "/registry/replicasets/"@, revision),
    {
        proof {
            reveal_strlit("/registry/replicasets/");
        }
        snapshot_with_rev(entries, "/registry/replicasets/", revision)
    }
}

impl XlineStore {
    /// The stored deployments: names and texts, with the revision at which they were read.
    pub fn deployments_snapshot_with_rev(
        entries: &Vec<(Vec<u8>, Vec<u8>)>,
        revision: Option<i64>,
    ) -> (r: (Vec<(String, String)>, i64))
        ensures
            is_snapshot(r, entries@, "/registry/deployments/"@, revision),
    {
        proof {
            reveal_strlit("/registry/deployments/");
        }
        snapshot_with_rev(entries, "/registry/deployments/", revision)
    }
}

/// The text of the value that a read of one key brought.
pub fn first_value(values: &Vec<Vec<u8>>) -> (r: Option<String>)
    ensures
        text::opt_text(r) == if values@.len() > 0 {
            Some(manager::lossy_text(values@[0]@))
        } else {
            None
        },
{
    if values.len() > 0 {
        Some(decode_lossy(values[0].as_slice()))
    } else {
        None
    }
}

/// The text of the value that a read of one key brought, and the revision of its last change.
pub fn first_value_with_revision(values: &Vec<(Vec<u8>, i64)>) -> (r: Option<(String, i64)>)
    ensures
        match r {
            Some((t, rev)) => values@.len() > 0 && t@ == manager::lossy_text(values@[0].0@) && rev
                == values@[0].1,
            None => values@.len() == 0,
        },
{
    if values.len() > 0 {
        Some((decode_lossy(values[0].0.as_slice()), values[0].1))
    } else {
        None
    }
}

impl XlineStore {
    /// The key under which a node is to be stored; a node without a name is not.
    pub fn insert_node(name: &str) -> (r: Result<String, String>)
        ensures
            match r {
                Ok(k) => name@.len() > 0 && k@ == "/registry/nodes/"@ + name@,
                Err(e) => name@.len() == 0 && e@ == "node.metadata.name is empty"@,
            },
    {
        if name.is_empty() {
            Err("node.metadata.name is empty".to_owned())
        } else {
            Ok(node_key(name))
        }
    }
}

/// The finalizer that a deletion leaves for the garbage collector.
pub open spec fn deletion_finalizer(policy: DeletePropagationPolicy) -> Option<Finalizer> {
    match policy {
        DeletePropagationPolicy::Foreground => Some(Finalizer::DeletingDependents),
        DeletePropagationPolicy::Orphan => Some(Finalizer::OrphanDependents),
        DeletePropagationPolicy::Background => None,
    }
}

/// The finalizers of an object.
pub open spec fn finalizers_of(m: ObjectMetaView) -> Seq<Finalizer> {
    match m.finalizers {
        Some(f) => f,
        None => Seq::empty(),
    }
}

/// Whether a deletion takes an object out of the store at once: only when it happens in the
/// background and nothing is to run before.
pub open spec fn removed_at_once(m: ObjectMetaView, policy: DeletePropagationPolicy) -> bool {
    policy is Background && finalizers_of(m).len() == 0
}

/// The metadata of an object that is marked as deleted.
pub open spec fn marked_deleted(
    m: ObjectMetaView,
    policy: DeletePropagationPolicy,
    now: i128,
) -> ObjectMetaView {
    ObjectMetaView {
        deletion_timestamp: Some(now),
        finalizers: match deletion_finalizer(policy) {
            Some(f) => Some(finalizers_of(m).push(f)),
            None => m.finalizers,
        },
        ..m
    }
}

/// What a deletion does to the store.
#[derive(Debug)]
pub enum DeleteStep {
    /// There is nothing to delete.
    Nothing,
    /// The key is to be removed.
    Remove(String),
    /// The metadata of the object at the key is to be replaced.
    UpdateMeta(String, ObjectMeta),
}

impl XlineStore {
    /// What the deletion of an object does. `stored` is the metadata of the object in the store.
    pub fn delete_object(
        kind: ResourceKind,
        name: &str,
        policy: DeletePropagationPolicy,
        stored: Option<ObjectMeta>,
        now: i128,
    ) -> (r: DeleteStep)
        ensures
            match r {
                DeleteStep::Nothing => manager::prefix_of(kind) is None || stored is None,
                DeleteStep::Remove(key) => manager::prefix_of(kind) is Some && key@
                    == manager::prefix_of(kind)->0 + name@ && stored is Some && removed_at_once(
                    stored->0.deep_view(),
                    policy,
                ),
                DeleteStep::UpdateMeta(key, meta) => manager::prefix_of(kind) is Some && key@
                    == manager::prefix_of(kind)->0 + name@ && stored is Some && !removed_at_once(
                    stored->0.deep_view(),
                    policy,
                ) && meta.deep_view() == marked_deleted(stored->0.deep_view(), policy, now),
            },
    {
        let key = match object_key(kind, name) {
            Some(k) => k,
            None => {
                return DeleteStep::Nothing;
            },
        };
        let meta = match stored {
            Some(m) => m,
            None => {
                return DeleteStep::Nothing;
            },
        };
        match policy {
            DeletePropagationPolicy::Background => {
                let bare = match &meta.finalizers {
                    Some(f) => f.len() == 0,
                    None => true,
                };
                if bare {
                    DeleteStep::Remove(key)
                } else {
                    let marked = ObjectMeta { deletion_timestamp: Some(now), ..meta };
                    DeleteStep::UpdateMeta(key, marked)
                }
            },
            DeletePropagationPolicy::Foreground => {
                let marked = with_finalizer(meta, Finalizer::DeletingDependents, now);
                DeleteStep::UpdateMeta(key, marked)
            },
            DeletePropagationPolicy::Orphan => {
                let marked = with_finalizer(meta, Finalizer::OrphanDependents, now);
                DeleteStep::UpdateMeta(key, marked)
            },
        }
    }
}

fn with_finalizer(meta: ObjectMeta, finalizer: Finalizer, now: i128) -> (r: ObjectMeta)
    ensures
        r.deep_view() == (ObjectMetaView {
            deletion_timestamp: Some(now),
            finalizers: Some(finalizers_of(meta.deep_view()).push(finalizer)),
            ..meta.deep_view()
        }),
{
    let ghost before = finalizers_of(meta.deep_view());
    let mut list: Vec<Finalizer> = match meta.finalizers {
        Some(f) => f,
        None => Vec::new(),
    };
    assert(list.deep_view() =~= before);
    list.push(finalizer);
    assert(list.deep_view() =~= before.push(finalizer));
    ObjectMeta { deletion_timestamp: Some(now), finalizers: Some(list), ..meta }
}

proof fn lemma_nothing_to_replace(s: Seq<char>, pat: Seq<char>, with: Seq<char>)
    requires
        !text::occurs(s, pat),
    ensures
        text::replaced(s, pat, with) == s,
    decreases s.len(),
{
    if pat.len() != 0 && s.len() != 0 {
        if pat.is_prefix_of(s) {
            assert(s.subrange(0, 0 + pat.len() as int) =~= pat);
            assert(false);
        }
        let t = s.skip(1);
        assert forall|i: int| 0 <= i <= t.len() - pat.len() implies #[trigger] t.subrange(
            i,
            i + pat.len(),
        ) != pat by {
            assert(t.subrange(i, i + pat.len()) =~= s.subrange(i + 1, i + 1 + pat.len()));
        }
        lemma_nothing_to_replace(t, pat, with);
        assert(seq![s[0]] + t =~= s);
    }
}

/// The name of an object is read back from its key, unless it holds the prefix itself.
pub proof fn law_key_names_its_object(prefix: Seq<char>, name: Seq<char>)
    requires
        prefix.len() > 0,
        !text::occurs(name, prefix),
    ensures
        text::replaced(prefix + name, prefix, Seq::empty()) == name,
{
    let key = prefix + name;
    assert(key.take(prefix.len() as int) =~= prefix);
    assert(prefix.is_prefix_of(key));
    assert(key.skip(prefix.len() as int) =~= name);
    lemma_nothing_to_replace(name, prefix, Seq::empty());
    assert(Seq::<char>::empty() + name =~= name);
}

/// An object that was deleted in the foreground, or with its dependents orphaned, stays in the
/// store whatever deletions follow: only taking out its finalizers lets it go.
pub proof fn law_finalizers_keep_an_object(
    m: ObjectMetaView,
    first: DeletePropagationPolicy,
    second: DeletePropagationPolicy,
    now: i128,
)
    requires
        !(first is Background),
    ensures
        !removed_at_once(m, first),
        !removed_at_once(marked_deleted(m, first, now), second),
        marked_deleted(m, first, now).deletion_timestamp == Some(now),
{
}

/// A deleted object is removed at once when nothing has to be done before, and is marked
/// otherwise: with the time, and with the finalizer of the way that was asked for behind those
/// that it had. Nothing else of it changes.
pub proof fn law_deletion_follows_the_policy(
    kind: ResourceKind,
    name: &str,
    policy: DeletePropagationPolicy,
    meta: ObjectMeta,
    now: i128,
    r: DeleteStep,
    none: DeleteStep,
)
    requires
        call_ensures(XlineStore::delete_object, (kind, name, policy, Some(meta), now), r),
        call_ensures(
            XlineStore::delete_object,
            (kind, name, policy, None::<ObjectMeta>, now),
            none,
        ),
    ensures
        none is Nothing,
        kind == ResourceKind::Unknown ==> r is Nothing,
        kind != ResourceKind::Unknown ==> {
            let had = match meta.finalizers {
                Some(f) => f@,
                None => Seq::empty(),
            };
            let key = manager::prefix_of(kind)->0 + name@;
            &&& r is Remove <==> policy == DeletePropagationPolicy::Background && had.len() == 0
            &&& r matches DeleteStep::Remove(k) ==> k@ == key
            &&& !(r is Remove) ==> {
                &&& r matches DeleteStep::UpdateMeta(k, m) && k@ == key && m.deletion_timestamp
                    == Some(now) && m.name@ == meta.name@ && m.namespace@ == meta.namespace@ && m.uid
                    == meta.uid && m.creation_timestamp == meta.creation_timestamp && m.generation
                    == meta.generation && match policy {
                    DeletePropagationPolicy::Foreground => m.finalizers is Some && m.finalizers->0@
                        == had.push(Finalizer::DeletingDependents),
                    DeletePropagationPolicy::Orphan => m.finalizers is Some && m.finalizers->0@
                        == had.push(Finalizer::OrphanDependents),
                    DeletePropagationPolicy::Background => m.finalizers is Some && m.finalizers->0@
                        == had,
                }
            }
        },
{
    lemma_finalizer_view(meta);
    if let DeleteStep::UpdateMeta(k, m) = r {
        lemma_finalizer_view(m);
    }
}

proof fn lemma_finalizer_view(meta: ObjectMeta)
    ensures
        meta.deep_view().finalizers is Some <==> meta.finalizers is Some,
        meta.finalizers matches Some(f) ==> meta.deep_view().finalizers == Some(f@),
        meta.deep_view().name == meta.name@,
        meta.deep_view().namespace == meta.namespace@,
{
    if let Some(f) = meta.finalizers {
        assert(f.deep_view() =~= f@);
    }
}

/// Objects are listed by their names: what stands behind the prefix of their kind.
pub proof fn law_objects_are_listed_by_name(
    keys: Vec<Vec<u8>>,
    prefix: &str,
    r: Vec<String>,
    i: int,
    name: Seq<char>,
)
    requires
        call_ensures(names_of, (&keys, prefix), r),
        0 <= i < keys@.len(),
        manager::lossy_text(keys@[i]@) == prefix@ + name,
        prefix@.len() > 0,
        !text::occurs(name, prefix@),
    ensures
        r@.len() == keys@.len(),
        r@[i]@ == name,
{
    law_key_names_its_object(prefix@, name);
}

/// The entries of a snapshot come in their order, each with its own value, at the revision at
/// which they were read.
pub proof fn law_snapshot_is_at_its_revision(
    entries: Vec<(Vec<u8>, Vec<u8>)>,
    prefix: &str,
    revision: Option<i64>,
    r: (Vec<(String, String)>, i64),
    i: int,
    name: Seq<char>,
)
    requires
        call_ensures(snapshot_with_rev, (&entries, prefix, revision), r),
        0 <= i < entries@.len(),
        manager::lossy_text(entries@[i].0@) == prefix@ + name,
        prefix@.len() > 0,
        !text::occurs(name, prefix@),
    ensures
        r.0@.len() == entries@.len(),
        r.0@[i].0@ == name,
        r.0@[i].1@ == manager::lossy_text(entries@[i].1@),
        revision matches Some(n) ==> r.1 == n,
        revision is None ==> r.1 == 0,
{
    law_key_names_its_object(prefix@, name);
}

} // verus!

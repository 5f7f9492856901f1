//! Cascading deletion over owner references.
//!
//! When an owner is deleted its dependents follow, according to the propagation policy:
//! in the background after the owner is gone, in the foreground before the owner goes, or
//! not at all when they are orphaned. The graph of owners and dependents feeds two queues;
//! the functions here decide what to do with a queued node from what the store holds.
use vstd::prelude::*;
use crate::controllers::garbage_collector::absent_owners::AbsentOwnerCache;
use crate::controllers::garbage_collector::graph_builder::{
    being_deleted, has_delete_dependents_finalizer, has_orphan_dependents_finalizer, GraphBuilder,
    GraphChangeEventInfo, GraphChangeEventKind, GraphEvent, GraphView,
};
use crate::controllers::garbage_collector::types::ObjectReference;
use crate::protocol::meta;
use crate::protocol::meta::{
    copy_owners, flag_is, DeletePropagationPolicy, Finalizer, ObjectMeta, OwnerReference,
    ResourceKind,
};
use crate::protocol::value::Value;
use crate::seqs;

pub mod absent_owners;
pub mod attempt;
pub mod graph;
pub mod graph_builder;
pub mod types;

verus! {

/// How an attempt to delete an item ended.
#[derive(Debug, Clone, Copy, PartialEq, Eq, Structural)]
pub enum AttemptOutcome {
    Done,
    SentVirtualDeleteEvent,
    Other,
}

/// What is known of an owner.
#[derive(Debug, Clone, Copy, PartialEq, Eq, Structural)]
pub enum OwnerState {
    /// The owner exists and does not wait for its dependents to be deleted.
    Solid,
    /// The owner does not exist.
    Dangling,
    /// The owner is being deleted and waits for its dependents to be deleted.
    Waiting,
}

/// What follows once the item was looked up in the store.
#[derive(Debug)]
pub enum AfterRead {
    /// The object is gone: the graph is told so.
    VirtualDelete(GraphEvent),
    /// The object waits for its dependents.
    DeletingDependents,
    /// The object has no owners, so nothing is to be done.
    NoOwners,
    /// The owners are to be looked up.
    ClassifyOwners,
}

/// What is to be done with an item once its owners are known.
#[derive(Debug)]
pub enum DeleteDecision {
    /// All owners are solid.
    Keep,
    /// Some owners are solid: the others leave the owner references.
    PatchOwners(Vec<OwnerReference>),
    /// An owner waits for this object, which has dependents of its own: their references
    /// stop blocking it, and it is deleted in the foreground.
    UnblockAndDeleteForeground,
    /// The object is deleted with the policy.
    Delete(DeletePropagationPolicy),
}

/// The references whose state is `state`, among the first `n`.
pub open spec fn in_state(
    owners: Seq<OwnerReference>,
    states: Seq<OwnerState>,
    state: OwnerState,
    n: int,
) -> Seq<OwnerReference>
    decreases n,
{
    if n <= 0 {
        Seq::empty()
    } else {
        let rest = in_state(owners, states, state, n - 1);
        if states[n - 1] == state {
            rest.push(owners[n - 1])
        } else {
            rest
        }
    }
}

/// The state of an owner that the store was asked for.
pub open spec fn owner_state(owner: OwnerReference, found: Option<ObjectMeta>) -> OwnerState {
    match found {
        None => OwnerState::Dangling,
        Some(m) => if m.uid != owner.uid {
            OwnerState::Dangling
        } else if graph_builder::is_being_deleted(m) && graph_builder::carries(
            m,
            Finalizer::DeletingDependents,
        ) {
            OwnerState::Waiting
        } else {
            OwnerState::Solid
        },
    }
}

/// The policy that the finalizers of an object call for.
pub open spec fn policy_for(m: ObjectMeta) -> DeletePropagationPolicy {
    if graph_builder::carries(m, Finalizer::OrphanDependents) {
        DeletePropagationPolicy::Orphan
    } else if graph_builder::carries(m, Finalizer::DeletingDependents) {
        DeletePropagationPolicy::Foreground
    } else {
        DeletePropagationPolicy::Background
    }
}

/// Whether `d` is the decision for an object with the given classes of owners.
pub open spec fn is_decision(
    d: DeleteDecision,
    solid: Seq<OwnerReference>,
    dangling: Seq<OwnerReference>,
    waiting: Seq<OwnerReference>,
    has_dependents: bool,
    m: ObjectMeta,
) -> bool {
    if solid.len() > 0 {
        if dangling.len() == 0 && waiting.len() == 0 {
            d is Keep
        } else {
            d matches DeleteDecision::PatchOwners(v) && v@ == solid
        }
    } else if waiting.len() > 0 && has_dependents {
        d is UnblockAndDeleteForeground
    } else {
        d == DeleteDecision::Delete(policy_for(m))
    }
}

/// Whether the decision removes the object.
pub open spec fn deletes(d: DeleteDecision) -> bool {
    d is Delete || d is UnblockAndDeleteForeground
}

/// The owner references with those to `uid` no longer blocking it.
pub open spec fn unblocked(owners: Seq<OwnerReference>, uid: u128) -> Seq<OwnerReference> {
    owners.map_values(
        |o: OwnerReference|
            if graph::blocks(o, uid) {
                OwnerReference { block_owner_deletion: Some(false), ..o }
            } else {
                o
            },
    )
}

/// Whether one of the references blocks `uid`.
pub open spec fn any_blocks(owners: Seq<OwnerReference>, uid: u128) -> bool {
    exists|i: int| 0 <= i < owners.len() && graph::blocks(#[trigger] owners[i], uid)
}

/// The dependents, among the first `n`, whose references to `uid` have to change, each with
/// its changed references.
pub open spec fn unblock_list(g: GraphView, deps: Seq<usize>, uid: u128, n: int) -> Seq<
    (usize, Seq<OwnerReference>),
>
    decreases n,
{
    if n <= 0 {
        Seq::empty()
    } else {
        let rest = unblock_list(g, deps, uid, n - 1);
        let owners = g.nodes[deps[n - 1] as int].owners;
        if any_blocks(owners, uid) {
            rest.push((deps[n - 1], unblocked(owners, uid)))
        } else {
            rest
        }
    }
}

/// The dependents, among the first `n`, each with its references to other owners than `uid`.
pub open spec fn orphan_list(g: GraphView, deps: Seq<usize>, uid: u128, n: int) -> Seq<
    (usize, Seq<OwnerReference>),
>
    decreases n,
{
    if n <= 0 {
        Seq::empty()
    } else {
        orphan_list(g, deps, uid, n - 1).push(
            (
                deps[n - 1],
                g.nodes[deps[n - 1] as int].owners.filter(graph_builder::not_uid(uid)),
            ),
        )
    }
}

/// The contents of a list of nodes with owner references.
pub open spec fn patch_views(v: Seq<(usize, Vec<OwnerReference>)>) -> Seq<
    (usize, Seq<OwnerReference>),
> {
    v.map_values(|p: (usize, Vec<OwnerReference>)| (p.0, p.1@))
}

/// The blocking dependents, among the first `n`, that do not wait for dependents themselves.
pub open spec fn not_yet_deleting(g: GraphView, s: Seq<usize>, n: int) -> Seq<usize>
    decreases n,
{
    if n <= 0 {
        Seq::empty()
    } else {
        let rest = not_yet_deleting(g, s, n - 1);
        if !g.nodes[s[n - 1] as int].deleting_dependents {
            rest.push(s[n - 1])
        } else {
            rest
        }
    }
}

/// The event that tells the graph that the object of an identity is gone.
pub open spec fn is_virtual_delete_of(e: GraphEvent, id: ObjectReference) -> bool {
    &&& e.kind == GraphChangeEventKind::Delete
    &&& e.is_virtual
    &&& e.old is None
    &&& e.new.kind == id.kind
    &&& e.new.meta.deep_view() == meta::bare_meta(id.name@, id.namespace@, id.uid)
}

fn virtual_delete_of(id: &ObjectReference) -> (e: GraphEvent)
    ensures
        is_virtual_delete_of(e, *id),
{
    GraphEvent::new_virtual_delete(
        GraphChangeEventInfo {
            kind: id.kind,
            meta: ObjectMeta::bare(id.name.clone(), id.namespace.clone(), id.uid),
        },
    )
}

/// Whether the owner is known to be absent without asking the store.
pub fn owner_known_absent(
    cache: &AbsentOwnerCache,
    owner: &OwnerReference,
    namespace: &String,
) -> (r: bool)
    ensures
        r == cache@.contains(
            absent_owners::key_of(ObjectReference::of_owner(*owner, *namespace)@),
        ),
{
    let id = ObjectReference::from_owner_reference(owner, namespace.clone());
    cache.contains(&id)
}

/// The state of an owner that the store was asked for. An owner that is not there, or is
/// there under another identifier, is recorded as absent.
pub fn is_dangling_owner(
    cache: &mut AbsentOwnerCache,
    owner: &OwnerReference,
    namespace: &String,
    found: Option<&ObjectMeta>,
) -> (r: OwnerState)
    ensures
        r == owner_state(
            *owner,
            match found {
                Some(m) => Some(*m),
                None => None,
            },
        ),
        r == OwnerState::Dangling ==> final(cache)@ == absent_owners::after_put(
            old(cache)@,
            absent_owners::key_of(ObjectReference::of_owner(*owner, *namespace)@),
            old(cache).limit(),
        ),
        r != OwnerState::Dangling ==> final(cache)@ == old(cache)@,
        final(cache).limit() == old(cache).limit(),
{
    match found {
        Some(m) => {
            if m.uid == owner.uid {
                if being_deleted(m) && has_delete_dependents_finalizer(m) {
                    return OwnerState::Waiting;
                }
                return OwnerState::Solid;
            }
        },
        None => {},
    }
    let id = ObjectReference::from_owner_reference(owner, namespace.clone());
    cache.put(&id);
    OwnerState::Dangling
}

/// The solid, the dangling and the waiting owners.
pub fn classify_owners(owners: &Vec<OwnerReference>, states: &Vec<OwnerState>) -> (r: (
    Vec<OwnerReference>,
    Vec<OwnerReference>,
    Vec<OwnerReference>,
))
    requires
        owners@.len() == states@.len(),
    ensures
        r.0@ == in_state(owners@, states@, OwnerState::Solid, owners@.len() as int),
        r.1@ == in_state(owners@, states@, OwnerState::Dangling, owners@.len() as int),
        r.2@ == in_state(owners@, states@, OwnerState::Waiting, owners@.len() as int),
{
    let mut solid: Vec<OwnerReference> = Vec::new();
    let mut dangling: Vec<OwnerReference> = Vec::new();
    let mut waiting: Vec<OwnerReference> = Vec::new();
    for i in 0..owners.len()
        invariant
            owners@.len() == states@.len(),
            solid@ == in_state(owners@, states@, OwnerState::Solid, i as int),
            dangling@ == in_state(owners@, states@, OwnerState::Dangling, i as int),
            waiting@ == in_state(owners@, states@, OwnerState::Waiting, i as int),
    {
        match states[i] {
            OwnerState::Solid => solid.push(owners[i].copy()),
            OwnerState::Dangling => dangling.push(owners[i].copy()),
            OwnerState::Waiting => waiting.push(owners[i].copy()),
        }
    }
    (solid, dangling, waiting)
}

/// What is to be done with an item, from the classes of its owners, whether it has
/// dependents, and its stored metadata.
pub fn decide_deletion(
    solid: &Vec<OwnerReference>,
    dangling: &Vec<OwnerReference>,
    waiting: &Vec<OwnerReference>,
    has_dependents: bool,
    meta: &ObjectMeta,
) -> (r: DeleteDecision)
    ensures
        is_decision(r, solid@, dangling@, waiting@, has_dependents, *meta),
{
    if solid.len() > 0 {
        if dangling.len() == 0 && waiting.len() == 0 {
            DeleteDecision::Keep
        } else {
            DeleteDecision::PatchOwners(copy_owners(solid))
        }
    } else if waiting.len() > 0 && has_dependents {
        DeleteDecision::UnblockAndDeleteForeground
    } else if has_orphan_dependents_finalizer(meta) {
        DeleteDecision::Delete(DeletePropagationPolicy::Orphan)
    } else if has_delete_dependents_finalizer(meta) {
        DeleteDecision::Delete(DeletePropagationPolicy::Foreground)
    } else {
        DeleteDecision::Delete(DeletePropagationPolicy::Background)
    }
}

/// The metadata with the given owner references; an empty list is left out.
pub fn patch_new_owner_references(meta: &mut ObjectMeta, new_owner_refs: Vec<OwnerReference>)
    ensures
        new_owner_refs@.len() == 0 ==> *final(meta) == (ObjectMeta {
            owner_references: None,
            ..*old(meta)
        }),
        new_owner_refs@.len() > 0 ==> *final(meta) == (ObjectMeta {
            owner_references: Some(new_owner_refs),
            ..*old(meta)
        }),
{
    if new_owner_refs.len() == 0 {
        meta.owner_references = None;
    } else {
        meta.owner_references = Some(new_owner_refs);
    }
}

/// The predicate that holds of every finalizer but one.
pub open spec fn not_finalizer(f: Finalizer) -> spec_fn(Finalizer) -> bool {
    |x: Finalizer| x != f
}

/// Removes every entry of a finalizer.
pub fn remove_finalizer(meta: &mut ObjectMeta, finalizer: Finalizer)
    ensures
        old(meta).finalizers is None ==> *final(meta) == *old(meta),
        old(meta).finalizers matches Some(v) ==> {
            &&& final(meta).finalizers matches Some(w)
            &&& w@ == v@.filter(not_finalizer(finalizer))
            &&& *final(meta) == ObjectMeta { finalizers: final(meta).finalizers, ..*old(meta) }
        },
        !graph_builder::carries(*final(meta), finalizer),
{
    let ghost p = not_finalizer(finalizer);
    let kept: Option<Vec<Finalizer>> = match &meta.finalizers {
        Some(v) => {
            let mut out: Vec<Finalizer> = Vec::new();
            proof {
                seqs::lemma_filter_none(v@, p);
            }
            for i in 0..v.len()
                invariant
                    p == not_finalizer(finalizer),
                    out@ == v@.take(i as int).filter(p),
            {
                proof {
                    seqs::lemma_filter_take(v@, p, i as int);
                }
                if v[i] != finalizer {
                    out.push(v[i]);
                }
            }
            proof {
                seqs::lemma_filter_members(v@, p);
            }
            Some(out)
        },
        None => None,
    };
    meta.finalizers = kept;
}

impl GraphBuilder {
    /// Whether a node taken from the deletion queue is still to be worked on: a node that
    /// is only referred to is passed over when its object was seen meanwhile or is no
    /// longer known.
    pub fn should_attempt(&self, node: usize) -> (r: bool)
        requires
            self@.wf(),
            node < self@.nodes.len(),
        ensures
            r == (!self@.nodes[node as int].is_virtual || match graph::lookup(
                self@.table,
                self@.nodes[node as int].identity.uid,
            ) {
                Some(n) => self@.nodes[n as int].is_virtual,
                None => false,
            }),
    {
        assert(self@.nodes[node as int] == self.nodes@[node as int]@);
        if self.nodes[node].is_observed() {
            return true;
        }
        match self.uid_to_node_table.get(&self.nodes[node].identity.uid) {
            Some(n) => {
                assert(self@.table.contains_key(self@.nodes[node as int].identity.uid));
                assert(self@.nodes[n as int] == self.nodes@[n as int]@);
                self.nodes[n].is_virtual()
            },
            None => false,
        }
    }

    /// Whether the node goes back to the deletion queue after an attempt.
    pub fn requeue_after(&self, node: usize, outcome: AttemptOutcome) -> (r: bool)
        requires
            node < self@.nodes.len(),
        ensures
            r == match outcome {
                AttemptOutcome::Done => self@.nodes[node as int].is_virtual,
                AttemptOutcome::SentVirtualDeleteEvent => false,
                AttemptOutcome::Other => true,
            },
    {
        assert(self@.nodes[node as int] == self.nodes@[node as int]@);
        match outcome {
            AttemptOutcome::Done => self.nodes[node].is_virtual(),
            AttemptOutcome::SentVirtualDeleteEvent => false,
            AttemptOutcome::Other => true,
        }
    }

    /// Starts an attempt to delete an item: the object to read, or nothing when the item is
    /// being deleted already and does not wait for its dependents.
    pub fn attempt_to_delete_item(&self, node: usize) -> (r: Option<ObjectReference>)
        requires
            node < self@.nodes.len(),
        ensures
            ({
                let n = self@.nodes[node as int];
                r == if n.being_deleted && !n.deleting_dependents {
                    None
                } else {
                    Some(n.identity)
                }
            }),
    {
        assert(self@.nodes[node as int] == self.nodes@[node as int]@);
        let n = &self.nodes[node];
        if n.is_being_deleted() && !n.is_deleting_dependents() {
            None
        } else {
            Some(n.identity.copy())
        }
    }

    /// Goes on with an attempt once the object was read.
    pub fn item_was_read(&self, node: usize, found: Option<&ObjectMeta>) -> (r: AfterRead)
        requires
            node < self@.nodes.len(),
        ensures
            ({
                let n = self@.nodes[node as int];
                let id = n.identity;
                let gone = match found {
                    None => true,
                    Some(m) => m.uid != id.uid,
                };
                &&& gone ==> (r matches AfterRead::VirtualDelete(e) && is_virtual_delete_of(e, id))
                &&& !gone && n.deleting_dependents ==> r is DeletingDependents
                &&& !gone && !n.deleting_dependents && found->0.owner_references is None
                    ==> r is NoOwners
                &&& !gone && !n.deleting_dependents && found->0.owner_references is Some
                    ==> r is ClassifyOwners
            }),
    {
        assert(self@.nodes[node as int] == self.nodes@[node as int]@);
        let n = &self.nodes[node];
        match found {
            None => AfterRead::VirtualDelete(virtual_delete_of(&n.identity)),
            Some(m) => {
                if m.uid != n.identity.uid {
                    AfterRead::VirtualDelete(virtual_delete_of(&n.identity))
                } else if n.is_deleting_dependents() {
                    AfterRead::DeletingDependents
                } else if m.owner_references.is_none() {
                    AfterRead::NoOwners
                } else {
                    AfterRead::ClassifyOwners
                }
            },
        }
    }

    /// Works on a node that waits for its dependents: with no blocking dependent left the
    /// finalizer is to be removed (the result is true); otherwise the blocking dependents
    /// that do not wait for dependents themselves are queued.
    pub fn process_deleting_dependents(&mut self, node: usize) -> (r: bool)
        requires
            old(self)@.wf(),
            node < old(self)@.nodes.len(),
        ensures
            ({
                let g = old(self)@;
                let n = g.nodes[node as int];
                let b = graph::blocking_of(
                    g.nodes,
                    n.dependents,
                    n.identity.uid,
                    n.dependents.len() as int,
                );
                &&& r == (b.len() == 0)
                &&& final(self)@ == g.push_deletes(not_yet_deleting(g, b, b.len() as int))
            }),
            final(self)@.wf(),
    {
        let ghost g = self@;
        assert(g.nodes[node as int] == self.nodes@[node as int]@);
        assert(graph_builder::all_below(g.nodes[node as int].dependents, g.nodes.len()));
        let b = self.nodes[node].blocking_dependents(&self.nodes);
        proof {
            lemma_blocking_below(
                g.nodes,
                g.nodes[node as int].dependents,
                g.nodes[node as int].identity.uid,
                g.nodes[node as int].dependents.len() as int,
            );
        }
        let none = b.len() == 0;
        let mut i: usize = 0;
        assert(g.push_deletes(Seq::<usize>::empty()).deletes =~= g.deletes);
        while i < b.len()
            invariant
                i <= b@.len(),
                g.wf(),
                graph_builder::all_below(b@, g.nodes.len()),
                self@ == g.push_deletes(not_yet_deleting(g, b@, i as int)),
                self@.wf(),
            decreases b@.len() - i,
        {
            let d = b[i];
            assert(b@[i as int] < g.nodes.len());
            assert(g.nodes[d as int] == self.nodes@[d as int]@);
            if !self.nodes[d].is_deleting_dependents() {
                let ghost before = self@.deletes;
                self.attempt_to_delete.push(d);
                proof {
                    assert(self@.deletes =~= g.deletes + not_yet_deleting(g, b@, i as int + 1));
                    assert(self@ == g.push_deletes(not_yet_deleting(g, b@, i as int + 1)));
                }
            }
            i = i + 1;
        }
        none
    }

    /// The dependents of a node whose references to it block its deletion, each with its
    /// references changed so that they no longer do.
    pub fn unblock_dependents(&self, node: usize) -> (r: Vec<(usize, Vec<OwnerReference>)>)
        requires
            self@.wf(),
            node < self@.nodes.len(),
        ensures
            ({
                let n = self@.nodes[node as int];
                patch_views(r@) == unblock_list(
                    self@,
                    n.dependents,
                    n.identity.uid,
                    n.dependents.len() as int,
                )
            }),
    {
        let ghost g = self@;
        assert(g.nodes[node as int] == self.nodes@[node as int]@);
        assert(graph_builder::all_below(g.nodes[node as int].dependents, g.nodes.len()));
        let uid = self.nodes[node].identity.uid;
        let deps = &self.nodes[node].dependents;
        let mut out: Vec<(usize, Vec<OwnerReference>)> = Vec::new();
        assert(patch_views(out@) =~= Seq::<(usize, Seq<OwnerReference>)>::empty());
        for i in 0..deps.len()
            invariant
                g == self@,
                graph_builder::all_below(deps@, g.nodes.len()),
                patch_views(out@) == unblock_list(g, deps@, uid, i as int),
        {
            let d = deps[i];
            assert(deps@[i as int] < g.nodes.len());
            assert(g.nodes[d as int] == self.nodes@[d as int]@);
            let (refs, changed) = unblock_refs(&self.nodes[d].owners, uid);
            if changed {
                let ghost before = patch_views(out@);
                let ghost rv = refs@;
                out.push((d, refs));
                assert(patch_views(out@) =~= before.push((d, rv)));
            }
        }
        out
    }

    /// The dependents of a node, each with the owner references that are left when the node
    /// is no longer its owner.
    pub fn orphan_dependents(&self, node: usize) -> (r: Vec<(usize, Vec<OwnerReference>)>)
        requires
            self@.wf(),
            node < self@.nodes.len(),
        ensures
            ({
                let n = self@.nodes[node as int];
                patch_views(r@) == orphan_list(
                    self@,
                    n.dependents,
                    n.identity.uid,
                    n.dependents.len() as int,
                )
            }),
    {
        let ghost g = self@;
        assert(g.nodes[node as int] == self.nodes@[node as int]@);
        assert(graph_builder::all_below(g.nodes[node as int].dependents, g.nodes.len()));
        let uid = self.nodes[node].identity.uid;
        let deps = &self.nodes[node].dependents;
        let mut out: Vec<(usize, Vec<OwnerReference>)> = Vec::new();
        assert(patch_views(out@) =~= Seq::<(usize, Seq<OwnerReference>)>::empty());
        for i in 0..deps.len()
            invariant
                g == self@,
                graph_builder::all_below(deps@, g.nodes.len()),
                patch_views(out@) == orphan_list(g, deps@, uid, i as int),
        {
            let d = deps[i];
            assert(deps@[i as int] < g.nodes.len());
            assert(g.nodes[d as int] == self.nodes@[d as int]@);
            let refs = owners_without(&self.nodes[d].owners, uid);
            let ghost before = patch_views(out@);
            let ghost rv = refs@;
            out.push((d, refs));
            assert(patch_views(out@) =~= before.push((d, rv)));
        }
        out
    }
}

proof fn lemma_entries_below(d: usize, owners: Seq<OwnerReference>, uid: u128, n: int, len: nat)
    requires
        d < len,
    ensures
        graph_builder::all_below(graph::blocking_entries(d, owners, uid, n), len),
    decreases n,
{
    if n > 0 {
        lemma_entries_below(d, owners, uid, n - 1, len);
    }
}

proof fn lemma_blocking_below(
    nodes: Seq<graph::NodeView>,
    deps: Seq<usize>,
    uid: u128,
    n: int,
)
    requires
        0 <= n <= deps.len(),
        graph_builder::all_below(deps, nodes.len()),
    ensures
        graph_builder::all_below(graph::blocking_of(nodes, deps, uid, n), nodes.len()),
    decreases n,
{
    if n > 0 {
        lemma_blocking_below(nodes, deps, uid, n - 1);
        let d = deps[n - 1];
        lemma_entries_below(
            d,
            nodes[d as int].owners,
            uid,
            nodes[d as int].owners.len() as int,
            nodes.len(),
        );
    }
}

/// The references with those to `uid` no longer blocking it, and whether one changed.
fn unblock_refs(owners: &Vec<OwnerReference>, uid: u128) -> (r: (Vec<OwnerReference>, bool))
    ensures
        r.0@ == unblocked(owners@, uid),
        r.1 == any_blocks(owners@, uid),
{
    let mut out: Vec<OwnerReference> = Vec::new();
    let mut changed = false;
    for i in 0..owners.len()
        invariant
            out@ == unblocked(owners@, uid).take(i as int),
            changed == exists|j: int| 0 <= j < i && graph::blocks(#[trigger] owners@[j], uid),
    {
        let mut o = owners[i].copy();
        if flag_is(o.block_owner_deletion, true) && o.uid == uid {
            o.block_owner_deletion = Some(false);
            changed = true;
            assert(graph::blocks(owners@[i as int], uid));
        }
        out.push(o);
        assert(unblocked(owners@, uid).take(i as int + 1) =~= unblocked(owners@, uid).take(
            i as int,
        ).push(unblocked(owners@, uid)[i as int]));
    }
    assert(unblocked(owners@, uid).take(owners@.len() as int) =~= unblocked(owners@, uid));
    (out, changed)
}

/// The references to other owners than `uid`.
fn owners_without(owners: &Vec<OwnerReference>, uid: u128) -> (r: Vec<OwnerReference>)
    ensures
        r@ == owners@.filter(graph_builder::not_uid(uid)),
{
    let ghost p = graph_builder::not_uid(uid);
    let mut out: Vec<OwnerReference> = Vec::new();
    proof {
        seqs::lemma_filter_none(owners@, p);
    }
    for i in 0..owners.len()
        invariant
            p == graph_builder::not_uid(uid),
            out@ == owners@.take(i as int).filter(p),
    {
        proof {
            seqs::lemma_filter_take(owners@, p, i as int);
        }
        if owners[i].uid != uid {
            out.push(owners[i].copy());
        }
    }
    out
}

/// Every owner is in exactly one class: an owner of a class stands in that class's list, and
/// the lists together are as long as the owners.
pub proof fn law_owner_classes_are_a_partition(
    owners: Seq<OwnerReference>,
    states: Seq<OwnerState>,
    n: int,
)
    requires
        owners.len() == states.len(),
        0 <= n <= owners.len(),
    ensures
        in_state(owners, states, OwnerState::Solid, n).len() + in_state(
            owners,
            states,
            OwnerState::Dangling,
            n,
        ).len() + in_state(owners, states, OwnerState::Waiting, n).len() == n,
        forall|i: int|
            0 <= i < n ==> in_state(owners, states, #[trigger] states[i], n).contains(owners[i]),
    decreases n,
{
    if n > 0 {
        law_owner_classes_are_a_partition(owners, states, n - 1);
        assert forall|i: int| 0 <= i < n implies in_state(
            owners,
            states,
            #[trigger] states[i],
            n,
        ).contains(owners[i]) by {
            let a = in_state(owners, states, states[i], n - 1);
            let b = in_state(owners, states, states[i], n);
            if i == n - 1 {
                assert(b[b.len() - 1] == owners[i]);
            } else {
                let k = choose|k: int| 0 <= k < a.len() && a[k] == owners[i];
                assert(b[k] == owners[i]);
            }
        }
    }
}

/// An object with a solid owner is never deleted; an object all of whose owners are dangling
/// is deleted, in the background unless its finalizers ask for more; an object with
/// dependents of which an owner waits, and none is solid, is deleted in the foreground.
pub proof fn law_cascade_rules(
    owners: Seq<OwnerReference>,
    states: Seq<OwnerState>,
    has_dependents: bool,
    m: ObjectMeta,
    d: DeleteDecision,
)
    requires
        owners.len() == states.len(),
        is_decision(
            d,
            in_state(owners, states, OwnerState::Solid, owners.len() as int),
            in_state(owners, states, OwnerState::Dangling, owners.len() as int),
            in_state(owners, states, OwnerState::Waiting, owners.len() as int),
            has_dependents,
            m,
        ),
    ensures
        states.contains(OwnerState::Solid) ==> !deletes(d),
        owners.len() > 0 && (forall|i: int|
            0 <= i < states.len() ==> states[i] == OwnerState::Dangling) ==> d
            == DeleteDecision::Delete(policy_for(m)),
        !states.contains(OwnerState::Solid) && states.contains(OwnerState::Waiting)
            && has_dependents ==> d is UnblockAndDeleteForeground,
        m.finalizers is None ==> policy_for(m) == DeletePropagationPolicy::Background,
{
    let n = owners.len() as int;
    law_owner_classes_are_a_partition(owners, states, n);
    if states.contains(OwnerState::Solid) {
        let i = choose|i: int| 0 <= i < states.len() && states[i] == OwnerState::Solid;
        assert(in_state(owners, states, states[i], n).contains(owners[i]));
    }
    if states.contains(OwnerState::Waiting) {
        let i = choose|i: int| 0 <= i < states.len() && states[i] == OwnerState::Waiting;
        assert(in_state(owners, states, states[i], n).contains(owners[i]));
    }
    lemma_empty_class(owners, states, OwnerState::Solid, n);
    lemma_empty_class(owners, states, OwnerState::Waiting, n);
}

proof fn lemma_empty_class(
    owners: Seq<OwnerReference>,
    states: Seq<OwnerState>,
    state: OwnerState,
    n: int,
)
    requires
        owners.len() == states.len(),
        0 <= n <= owners.len(),
    ensures
        !states.contains(state) ==> in_state(owners, states, state, n).len() == 0,
    decreases n,
{
    if n > 0 {
        lemma_empty_class(owners, states, state, n - 1);
        assert(states.contains(states[n - 1]));
    }
}

/// After orphaning, no dependent refers to the former owner.
pub proof fn law_orphans_forget_the_owner(g: GraphView, deps: Seq<usize>, uid: u128, n: int)
    requires
        0 <= n <= deps.len(),
    ensures
        orphan_list(g, deps, uid, n).len() == n,
        forall|i: int|
            0 <= i < n ==> (#[trigger] orphan_list(g, deps, uid, n)[i]).0 == deps[i]
                && !graph_builder::has_uid(orphan_list(g, deps, uid, n)[i].1, uid),
    decreases n,
{
    if n > 0 {
        law_orphans_forget_the_owner(g, deps, uid, n - 1);
        let owners = g.nodes[deps[n - 1] as int].owners;
        let p = graph_builder::not_uid(uid);
        seqs::lemma_filter_members(owners, p);
        assert forall|i: int| 0 <= i < owners.filter(p).len() implies (
        #[trigger] owners.filter(p)[i]).uid != uid by {
            assert(p(owners.filter(p)[i]));
        }
        let a = orphan_list(g, deps, uid, n - 1);
        let b = orphan_list(g, deps, uid, n);
        assert forall|i: int| 0 <= i < n implies (#[trigger] b[i]).0 == deps[i]
            && !graph_builder::has_uid(b[i].1, uid) by {
            if i < n - 1 {
                assert(b[i] == a[i]);
            }
        }
    }
}

/// References that were unblocked do not block the owner any more.
pub proof fn law_unblocked_references_do_not_block(owners: Seq<OwnerReference>, uid: u128)
    ensures
        !any_blocks(unblocked(owners, uid), uid),
        unblocked(owners, uid).len() == owners.len(),
{
}

/// The kinds of objects that the collector watches.
pub fn watch_resources() -> (r: Vec<ResourceKind>)
    ensures
        r@ == seq![ResourceKind::Pod, ResourceKind::ReplicaSet],
{
    let mut v: Vec<ResourceKind> = Vec::new();
    v.push(ResourceKind::Pod);
    v.push(ResourceKind::ReplicaSet);
    v
}

/// Whether an object waits for its dependents: it is being deleted and has the finalizer for that.
pub open spec fn awaits_dependents(m: ObjectMeta) -> bool {
    m.deletion_timestamp is Some && (m.finalizers matches Some(v) && v@.contains(
        Finalizer::DeletingDependents,
    ))
}

/// An owner that is not stored, or stored with another identifier, is dangling; one that is stored
/// waits when it is being deleted in the foreground, and is solid otherwise.
pub proof fn law_owners_are_judged_by_what_is_stored(
    cache: &mut AbsentOwnerCache,
    owner: OwnerReference,
    namespace: String,
    found: Option<&ObjectMeta>,
    r: OwnerState,
)
    requires
        call_ensures(is_dangling_owner, (cache, &owner, &namespace, found), r),
    ensures
        r == OwnerState::Dangling <==> !(found matches Some(m) && m.uid == owner.uid),
        r == OwnerState::Waiting <==> (found matches Some(m) && m.uid == owner.uid
            && awaits_dependents(*m)),
        r == OwnerState::Solid <==> (found matches Some(m) && m.uid == owner.uid
            && !awaits_dependents(*m)),
        r != OwnerState::Dangling ==> final(cache)@ == old(cache)@,
        r == OwnerState::Dangling && old(cache).limit() > 0 ==> final(cache)@.contains(
            absent_owners::key_of(ObjectReference::of_owner(owner, namespace)@),
        ),
{
    let key = absent_owners::key_of(ObjectReference::of_owner(owner, namespace)@);
    if r == OwnerState::Dangling {
        assert(final(cache)@[0] == key);
    }
}

/// Whether a reference stands in the list with the state.
pub open spec fn stands_with(
    owners: Seq<OwnerReference>,
    states: Seq<OwnerState>,
    o: OwnerReference,
    state: OwnerState,
) -> bool {
    exists|i: int| 0 <= i < owners.len() && #[trigger] owners[i] == o && states[i] == state
}

proof fn lemma_in_state(
    owners: Seq<OwnerReference>,
    states: Seq<OwnerState>,
    state: OwnerState,
    n: int,
)
    requires
        owners.len() == states.len(),
        0 <= n <= owners.len(),
    ensures
        forall|o: OwnerReference| #[trigger]
            in_state(owners, states, state, n).contains(o) <==> stands_with(
                owners.take(n),
                states,
                o,
                state,
            ),
    decreases n,
{
    if n > 0 {
        lemma_in_state(owners, states, state, n - 1);
        let a = in_state(owners, states, state, n - 1);
        let b = in_state(owners, states, state, n);
        let some = owners.take(n - 1);
        let more = owners.take(n);
        assert forall|o: OwnerReference| #[trigger] b.contains(o) <==> stands_with(
            more,
            states,
            o,
            state,
        ) by {
            assert(a.contains(o) <==> stands_with(some, states, o, state));
            if stands_with(some, states, o, state) {
                let i = choose|i: int|
                    0 <= i < some.len() && #[trigger] some[i] == o && states[i] == state;
                assert(more[i] == o);
                let k = choose|k: int| 0 <= k < a.len() && a[k] == o;
                assert(b[k] == o);
            }
            if stands_with(more, states, o, state) {
                let i = choose|i: int|
                    0 <= i < more.len() && #[trigger] more[i] == o && states[i] == state;
                if i < n - 1 {
                    assert(some[i] == o);
                    let k = choose|k: int| 0 <= k < a.len() && a[k] == o;
                    assert(b[k] == o);
                } else {
                    assert(b[b.len() - 1] == o);
                }
            }
            if b.contains(o) {
                let k = choose|k: int| 0 <= k < b.len() && b[k] == o;
                if k < a.len() {
                    assert(a[k] == o);
                } else {
                    assert(more[n - 1] == o);
                }
            }
        }
    } else {
        assert(owners.take(0).len() == 0);
    }
}

/// Owners are put into classes by their state: each class holds the owners in that state, and no
/// others.
pub proof fn law_owners_are_classed_by_state(
    owners: Vec<OwnerReference>,
    states: Vec<OwnerState>,
    r: (Vec<OwnerReference>, Vec<OwnerReference>, Vec<OwnerReference>),
)
    requires
        call_ensures(classify_owners, (&owners, &states), r),
        owners@.len() == states@.len(),
    ensures
        forall|o: OwnerReference| #[trigger]
            r.0@.contains(o) <==> stands_with(owners@, states@, o, OwnerState::Solid),
        forall|o: OwnerReference| #[trigger]
            r.1@.contains(o) <==> stands_with(owners@, states@, o, OwnerState::Dangling),
        forall|o: OwnerReference| #[trigger]
            r.2@.contains(o) <==> stands_with(owners@, states@, o, OwnerState::Waiting),
        r.0@.len() + r.1@.len() + r.2@.len() == owners@.len(),
{
    let n = owners@.len() as int;
    lemma_in_state(owners@, states@, OwnerState::Solid, n);
    lemma_in_state(owners@, states@, OwnerState::Dangling, n);
    lemma_in_state(owners@, states@, OwnerState::Waiting, n);
    assert(owners@.take(n) =~= owners@);
    law_owner_classes_are_a_partition(owners@, states@, n);
}

/// Whether an object has the finalizer.
pub open spec fn has_finalizer_of(m: ObjectMeta, f: Finalizer) -> bool {
    m.finalizers matches Some(v) && v@.contains(f)
}

/// An object with a solid owner stays: as it is when all its owners are solid, and else with the
/// solid ones as its only owners. One without is deleted: in the foreground, with its dependents
/// unblocked, when it has dependents and an owner waits for it, and else as its finalizers say, in
/// the background when they say nothing.
pub proof fn law_solid_owners_keep_an_object(
    solid: Vec<OwnerReference>,
    dangling: Vec<OwnerReference>,
    waiting: Vec<OwnerReference>,
    has_dependents: bool,
    m: ObjectMeta,
    r: DeleteDecision,
)
    requires
        call_ensures(decide_deletion, (&solid, &dangling, &waiting, has_dependents, &m), r),
    ensures
        r is Keep <==> solid@.len() > 0 && dangling@.len() == 0 && waiting@.len() == 0,
        r is PatchOwners <==> solid@.len() > 0 && dangling@.len() + waiting@.len() > 0,
        r matches DeleteDecision::PatchOwners(v) ==> v@ == solid@,
        r is UnblockAndDeleteForeground <==> solid@.len() == 0 && waiting@.len() > 0
            && has_dependents,
        r is Delete <==> solid@.len() == 0 && (waiting@.len() == 0 || !has_dependents),
        r matches DeleteDecision::Delete(p) ==> {
            &&& p == DeletePropagationPolicy::Orphan <==> has_finalizer_of(
                m,
                Finalizer::OrphanDependents,
            )
            &&& p == DeletePropagationPolicy::Foreground <==> has_finalizer_of(
                m,
                Finalizer::DeletingDependents,
            ) && !has_finalizer_of(m, Finalizer::OrphanDependents)
            &&& p == DeletePropagationPolicy::Background <==> !has_finalizer_of(
                m,
                Finalizer::DeletingDependents,
            ) && !has_finalizer_of(m, Finalizer::OrphanDependents)
        },
{
}

/// Removing a finalizer removes it, keeps every other one, and changes nothing else.
pub proof fn law_removed_finalizer_is_gone(m: &mut ObjectMeta, f: Finalizer)
    requires
        call_ensures(remove_finalizer, (m, f), ()),
    ensures
        !has_finalizer_of(*final(m), f),
        forall|x: Finalizer|
            x != f ==> #[trigger] has_finalizer_of(*final(m), x) == has_finalizer_of(*old(m), x),
        final(m).name == old(m).name && final(m).namespace == old(m).namespace && final(m).uid
            == old(m).uid && final(m).labels == old(m).labels,
        final(m).owner_references == old(m).owner_references,
        final(m).deletion_timestamp == old(m).deletion_timestamp,
{
    if let Some(v) = old(m).finalizers {
        seqs::lemma_filter_members(v@, not_finalizer(f));
    }
}

/// Setting the owners of an object leaves it with just those, without a list where there are none,
/// and changes nothing else.
pub proof fn law_patched_object_has_the_owners(m: &mut ObjectMeta, owners: Vec<OwnerReference>)
    requires
        call_ensures(patch_new_owner_references, (m, owners), ()),
    ensures
        meta::listed_owners(*final(m)) == owners@,
        owners@.len() == 0 ==> final(m).owner_references is None,
        final(m).name == old(m).name && final(m).namespace == old(m).namespace && final(m).uid
            == old(m).uid && final(m).labels == old(m).labels,
        final(m).finalizers == old(m).finalizers,
        final(m).deletion_timestamp == old(m).deletion_timestamp,
{
    if owners@.len() == 0 {
        assert(owners@ =~= Seq::<OwnerReference>::empty());
    }
}

/// Whether a node keeps the object with the identifier from being deleted.
pub open spec fn holds_back(v: graph::NodeView, uid: u128) -> bool {
    exists|i: int|
        0 <= i < v.owners.len() && (#[trigger] v.owners[i]).uid == uid
            && v.owners[i].block_owner_deletion == Some(true)
}

proof fn lemma_blocking_entries(d: usize, owners: Seq<OwnerReference>, uid: u128, n: int)
    requires
        0 <= n <= owners.len(),
    ensures
        forall|x: usize| #[trigger]
            graph::blocking_entries(d, owners, uid, n).contains(x) ==> x == d,
        graph::blocking_entries(d, owners, uid, n).len() > 0 <==> exists|i: int|
            0 <= i < n && (#[trigger] owners[i]).uid == uid && owners[i].block_owner_deletion
                == Some(true),
    decreases n,
{
    if n > 0 {
        lemma_blocking_entries(d, owners, uid, n - 1);
        let a = graph::blocking_entries(d, owners, uid, n - 1);
        let b = graph::blocking_entries(d, owners, uid, n);
        assert forall|x: usize| #[trigger] b.contains(x) implies x == d by {
            let k = choose|k: int| 0 <= k < b.len() && b[k] == x;
            if k < a.len() {
                assert(a.contains(a[k]));
            }
        }
        if graph::blocks(owners[n - 1], uid) {
            assert(owners[n - 1].uid == uid);
        }
    }
}

proof fn lemma_blocking_of(nodes: Seq<graph::NodeView>, deps: Seq<usize>, uid: u128, n: int)
    requires
        0 <= n <= deps.len(),
    ensures
        forall|x: usize| #[trigger]
            graph::blocking_of(nodes, deps, uid, n).contains(x) <==> deps.take(n).contains(x)
                && holds_back(nodes[x as int], uid),
    decreases n,
{
    if n > 0 {
        let less = deps.take(n - 1);
        lemma_blocking_of(nodes, deps, uid, n - 1);
        let a = graph::blocking_of(nodes, deps, uid, n - 1);
        let d = deps[n - 1];
        let owners = nodes[d as int].owners;
        let e = graph::blocking_entries(d, owners, uid, owners.len() as int);
        lemma_blocking_entries(d, owners, uid, owners.len() as int);
        let b = graph::blocking_of(nodes, deps, uid, n);
        assert forall|x: usize| #[trigger] b.contains(x) <==> deps.take(n).contains(x)
            && holds_back(nodes[x as int], uid) by {
            assert(a.contains(x) <==> deps.take(n - 1).contains(x) && holds_back(
                nodes[x as int],
                uid,
            ));
            if b.contains(x) {
                let k = choose|k: int| 0 <= k < b.len() && b[k] == x;
                if k < a.len() {
                    assert(a[k] == x);
                    let i = choose|i: int| 0 <= i < less.len() && less[i] == x;
                    assert(deps.take(n)[i] == x);
                } else {
                    assert(e[k - a.len()] == x);
                    assert(e.contains(x));
                    assert(deps.take(n)[n - 1] == x);
                }
            }
            if deps.take(n).contains(x) && holds_back(nodes[x as int], uid) {
                let i = choose|i: int| 0 <= i < n && deps.take(n)[i] == x;
                if i < n - 1 {
                    assert(deps.take(n - 1)[i] == x);
                    let k = choose|k: int| 0 <= k < a.len() && a[k] == x;
                    assert(b[k] == x);
                } else {
                    assert(e.len() > 0);
                    assert(e.contains(e[0]));
                    assert(b[a.len() as int] == x);
                }
            }
        }
    } else {
        assert(deps.take(0).len() == 0);
    }
}

proof fn lemma_not_yet_deleting(g: GraphView, s: Seq<usize>, n: int)
    requires
        0 <= n <= s.len(),
    ensures
        forall|x: usize| #[trigger]
            not_yet_deleting(g, s, n).contains(x) <==> s.take(n).contains(x)
                && !g.nodes[x as int].deleting_dependents,
    decreases n,
{
    if n > 0 {
        let less = s.take(n - 1);
        lemma_not_yet_deleting(g, s, n - 1);
        let a = not_yet_deleting(g, s, n - 1);
        let b = not_yet_deleting(g, s, n);
        assert forall|x: usize| #[trigger] b.contains(x) <==> s.take(n).contains(x)
            && !g.nodes[x as int].deleting_dependents by {
            assert(a.contains(x) <==> s.take(n - 1).contains(x)
                && !g.nodes[x as int].deleting_dependents);
            if a.contains(x) {
                let k = choose|k: int| 0 <= k < a.len() && a[k] == x;
                assert(b[k] == x);
                let i = choose|i: int| 0 <= i < less.len() && less[i] == x;
                assert(s.take(n)[i] == x);
            }
            if b.contains(x) && !a.contains(x) {
                let k = choose|k: int| 0 <= k < b.len() && b[k] == x;
                if k < a.len() {
                    assert(a[k] == x);
                }
                assert(s.take(n)[n - 1] == x);
            }
            if s.take(n).contains(x) && !g.nodes[x as int].deleting_dependents {
                let i = choose|i: int| 0 <= i < n && s.take(n)[i] == x;
                if i < n - 1 {
                    assert(s.take(n - 1)[i] == x);
                } else {
                    assert(b[b.len() - 1] == x);
                }
            }
        }
    } else {
        assert(s.take(0).len() == 0);
    }
}

/// An object that waits for its dependents may go when none of them holds it back. Otherwise those
/// that hold it back are tried, except those that wait for dependents themselves; nothing else is
/// queued.
pub proof fn law_foreground_deletion_ends_with_the_last_blocker(
    g: &mut GraphBuilder,
    node: usize,
    r: bool,
)
    requires
        call_ensures(GraphBuilder::process_deleting_dependents, (g, node), r),
        old(g)@.wf(),
        node < old(g)@.nodes.len(),
    ensures
        ({
            let before = old(g)@;
            let after = final(g)@;
            let n = before.nodes[node as int];
            let uid = n.identity.uid;
            let new = after.deletes.skip(before.deletes.len() as int);
            &&& r <==> forall|d: usize| #[trigger]
                n.dependents.contains(d) ==> !holds_back(before.nodes[d as int], uid)
            &&& after.deletes == before.deletes + new
            &&& forall|d: usize| #[trigger]
                new.contains(d) <==> n.dependents.contains(d) && holds_back(
                    before.nodes[d as int],
                    uid,
                ) && !before.nodes[d as int].deleting_dependents
            &&& after.nodes == before.nodes && after.table == before.table && after.orphans
                == before.orphans
        }),
{
    let before = old(g)@;
    let n = before.nodes[node as int];
    let uid = n.identity.uid;
    let len = n.dependents.len() as int;
    let b = graph::blocking_of(before.nodes, n.dependents, uid, len);
    lemma_blocking_of(before.nodes, n.dependents, uid, len);
    assert(n.dependents.take(len) =~= n.dependents);
    let q = not_yet_deleting(before, b, b.len() as int);
    lemma_not_yet_deleting(before, b, b.len() as int);
    assert(b.take(b.len() as int) =~= b);
    let new = final(g)@.deletes.skip(before.deletes.len() as int);
    assert(new =~= q);
    if b.len() > 0 {
        assert(b.contains(b[0]));
        assert(n.dependents.contains(b[0]));
    }
    if exists|d: usize| #[trigger]
        n.dependents.contains(d) && holds_back(before.nodes[d as int], uid) {
        let d = choose|d: usize| #[trigger]
            n.dependents.contains(d) && holds_back(before.nodes[d as int], uid);
        assert(b.contains(d));
    }
}

/// Whether the list names the node.
pub open spec fn gives(
    r: Seq<(usize, Vec<OwnerReference>)>,
    d: usize,
) -> bool {
    exists|k: int| 0 <= k < r.len() && (#[trigger] r[k]).0 == d
}

proof fn lemma_unblock_list(g: GraphView, deps: Seq<usize>, uid: u128, n: int)
    requires
        0 <= n <= deps.len(),
    ensures
        ({
            let l = unblock_list(g, deps, uid, n);
            &&& forall|k: int|
                0 <= k < l.len() ==> deps.take(n).contains((#[trigger] l[k]).0) && any_blocks(
                    g.nodes[l[k].0 as int].owners,
                    uid,
                ) && l[k].1 == unblocked(g.nodes[l[k].0 as int].owners, uid)
            &&& forall|i: int|
                0 <= i < n && any_blocks(g.nodes[(#[trigger] deps[i]) as int].owners, uid)
                    ==> exists|k: int| 0 <= k < l.len() && (#[trigger] l[k]).0 == deps[i]
        }),
    decreases n,
{
    if n > 0 {
        let less = deps.take(n - 1);
        lemma_unblock_list(g, deps, uid, n - 1);
        let a = unblock_list(g, deps, uid, n - 1);
        let b = unblock_list(g, deps, uid, n);
        assert forall|k: int| 0 <= k < b.len() implies deps.take(n).contains((#[trigger] b[k]).0)
            && any_blocks(g.nodes[b[k].0 as int].owners, uid) && b[k].1 == unblocked(
            g.nodes[b[k].0 as int].owners,
            uid,
        ) by {
            if k < a.len() {
                assert(b[k] == a[k]);
                let i = choose|i: int| 0 <= i < less.len() && less[i] == a[k].0;
                assert(deps.take(n)[i] == b[k].0);
            } else {
                assert(deps.take(n)[n - 1] == b[k].0);
            }
        }
        assert forall|i: int|
            0 <= i < n && any_blocks(g.nodes[(#[trigger] deps[i]) as int].owners, uid) implies exists|
            k: int,
        | 0 <= k < b.len() && (#[trigger] b[k]).0 == deps[i] by {
            if i < n - 1 {
                let k = choose|k: int| 0 <= k < a.len() && (#[trigger] a[k]).0 == deps[i];
                assert(b[k] == a[k]);
            } else {
                assert(b[b.len() - 1].0 == deps[i]);
            }
        }
    }
}

/// Unblocking the dependents of a node changes those that hold it back, and no others. The
/// references of each stay the same in number and order; the ones that hold the node back do so no
/// longer, and no other one changes.
pub proof fn law_unblocked_dependents_let_go(
    g: GraphBuilder,
    node: usize,
    r: Vec<(usize, Vec<OwnerReference>)>,
)
    requires
        call_ensures(GraphBuilder::unblock_dependents, (&g, node), r),
        g@.wf(),
        node < g@.nodes.len(),
    ensures
        ({
            let n = g@.nodes[node as int];
            let uid = n.identity.uid;
            &&& forall|d: usize| #[trigger]
                n.dependents.contains(d) && holds_back(g@.nodes[d as int], uid) ==> gives(r@, d)
            &&& forall|k: int|
                0 <= k < r@.len() ==> n.dependents.contains((#[trigger] r@[k]).0) && holds_back(
                    g@.nodes[r@[k].0 as int],
                    uid,
                )
            &&& forall|k: int|
                0 <= k < r@.len() ==> (#[trigger] r@[k]).1@.len()
                    == g@.nodes[r@[k].0 as int].owners.len()
            &&& forall|k: int, i: int|
                0 <= k < r@.len() && 0 <= i < r@[k].1@.len() ==> {
                    let a = g@.nodes[r@[k].0 as int].owners[i];
                    let b = #[trigger] r@[k].1@[i];
                    &&& b.uid == a.uid && b.name == a.name && b.kind == a.kind && b.controller
                        == a.controller
                    &&& a.uid == uid && a.block_owner_deletion == Some(true)
                        ==> b.block_owner_deletion == Some(false)
                    &&& !(a.uid == uid && a.block_owner_deletion == Some(true)) ==> b == a
                }
        }),
{
    let n = g@.nodes[node as int];
    let uid = n.identity.uid;
    let len = n.dependents.len() as int;
    lemma_unblock_list(g@, n.dependents, uid, len);
    let l = unblock_list(g@, n.dependents, uid, len);
    assert(n.dependents.take(len) =~= n.dependents);
    assert(patch_views(r@).len() == r@.len());
    assert forall|d: usize| any_blocks(g@.nodes[d as int].owners, uid) == #[trigger] holds_back(
        g@.nodes[d as int],
        uid,
    ) by {
        let o = g@.nodes[d as int].owners;
        if any_blocks(o, uid) {
            let i = choose|i: int| 0 <= i < o.len() && graph::blocks(#[trigger] o[i], uid);
            assert(o[i].uid == uid);
        }
        if holds_back(g@.nodes[d as int], uid) {
            let i = choose|i: int|
                0 <= i < o.len() && (#[trigger] o[i]).uid == uid && o[i].block_owner_deletion == Some(
                    true,
                );
            assert(graph::blocks(o[i], uid));
        }
    }
    assert forall|k: int| 0 <= k < r@.len() implies (#[trigger] r@[k]).0 == l[k].0 && r@[k].1@
        == l[k].1 by {
        assert(patch_views(r@)[k] == (r@[k].0, r@[k].1@));
    }
    assert forall|d: usize| #[trigger]
        n.dependents.contains(d) && holds_back(g@.nodes[d as int], uid) implies gives(r@, d) by {
        let i = choose|i: int| 0 <= i < len && n.dependents[i] == d;
        let k = choose|k: int| 0 <= k < l.len() && (#[trigger] l[k]).0 == n.dependents[i];
        assert(r@[k].0 == d);
    }
    assert forall|k: int, i: int| 0 <= k < r@.len() && 0 <= i < r@[k].1@.len() implies {
        let a = g@.nodes[r@[k].0 as int].owners[i];
        let b = #[trigger] r@[k].1@[i];
        &&& b.uid == a.uid && b.name == a.name && b.kind == a.kind && b.controller == a.controller
        &&& a.uid == uid && a.block_owner_deletion == Some(true) ==> b.block_owner_deletion == Some(
            false,
        )
        &&& !(a.uid == uid && a.block_owner_deletion == Some(true)) ==> b == a
    } by {
        assert(r@[k].0 == l[k].0);
    }
}

/// Orphaning takes up each dependent of a node, in order, and leaves it with its references to
/// other owners, all of them and in their order.
pub proof fn law_orphans_keep_their_other_owners(
    g: GraphBuilder,
    node: usize,
    r: Vec<(usize, Vec<OwnerReference>)>,
)
    requires
        call_ensures(GraphBuilder::orphan_dependents, (&g, node), r),
        g@.wf(),
        node < g@.nodes.len(),
    ensures
        ({
            let n = g@.nodes[node as int];
            let uid = n.identity.uid;
            &&& r@.len() == n.dependents.len()
            &&& forall|k: int|
                0 <= k < r@.len() ==> (#[trigger] r@[k]).0 == n.dependents[k] && seqs::is_subsequence(
                    r@[k].1@,
                    g@.nodes[n.dependents[k] as int].owners,
                )
            &&& forall|k: int, o: OwnerReference|
                0 <= k < r@.len() ==> (#[trigger] r@[k].1@.contains(o)
                    <==> g@.nodes[n.dependents[k] as int].owners.contains(o) && o.uid != uid)
        }),
{
    let n = g@.nodes[node as int];
    let uid = n.identity.uid;
    let len = n.dependents.len() as int;
    lemma_orphan_list(g@, n.dependents, uid, len);
    let l = orphan_list(g@, n.dependents, uid, len);
    assert(patch_views(r@).len() == r@.len());
    let p = graph_builder::not_uid(uid);
    assert forall|k: int| 0 <= k < r@.len() implies (#[trigger] r@[k]).0 == n.dependents[k]
        && r@[k].1@ == g@.nodes[n.dependents[k] as int].owners.filter(p)
        && seqs::is_subsequence(r@[k].1@, g@.nodes[n.dependents[k] as int].owners) by {
        assert(patch_views(r@)[k] == (r@[k].0, r@[k].1@));
        assert(l[k].0 == n.dependents[k]);
        seqs::lemma_filter_subsequence(g@.nodes[n.dependents[k] as int].owners, p);
    }
    assert forall|k: int, o: OwnerReference| 0 <= k < r@.len() implies (#[trigger] r@[k].1@.contains(o)
        <==> g@.nodes[n.dependents[k] as int].owners.contains(o) && o.uid != uid) by {
        assert(r@[k].0 == n.dependents[k]);
        seqs::lemma_filter_members(g@.nodes[n.dependents[k] as int].owners, p);
    }
}

proof fn lemma_orphan_list(g: GraphView, deps: Seq<usize>, uid: u128, n: int)
    requires
        0 <= n <= deps.len(),
    ensures
        orphan_list(g, deps, uid, n).len() == n,
        forall|k: int|
            0 <= k < n ==> (#[trigger] orphan_list(g, deps, uid, n)[k]).0 == deps[k] && orphan_list(
                g,
                deps,
                uid,
                n,
            )[k].1 == g.nodes[deps[k] as int].owners.filter(graph_builder::not_uid(uid)),
    decreases n,
{
    if n > 0 {
        lemma_orphan_list(g, deps, uid, n - 1);
        let a = orphan_list(g, deps, uid, n - 1);
        let b = orphan_list(g, deps, uid, n);
        assert forall|k: int| 0 <= k < n implies (#[trigger] b[k]).0 == deps[k] && b[k].1
            == g.nodes[deps[k] as int].owners.filter(graph_builder::not_uid(uid)) by {
            if k < n - 1 {
                assert(b[k] == a[k]);
            }
        }
    }
}

/// An attempt begins with a read of the object, unless it is being deleted and does not wait for
/// dependents. An object that is not stored under the identifier is reported gone; of one that is,
/// nothing is decided from its owners while it waits for its dependents, or when it lists none.
pub proof fn law_attempts_look_at_the_object_first(
    g: GraphBuilder,
    node: usize,
    begun: Option<ObjectReference>,
    found: Option<&ObjectMeta>,
    r: AfterRead,
)
    requires
        call_ensures(GraphBuilder::attempt_to_delete_item, (&g, node), begun),
        call_ensures(GraphBuilder::item_was_read, (&g, node, found), r),
        node < g@.nodes.len(),
    ensures
        ({
            let n = g@.nodes[node as int];
            let stored = found matches Some(m) && m.uid == n.identity.uid;
            &&& begun is None <==> n.being_deleted && !n.deleting_dependents
            &&& begun matches Some(id) ==> id.uid == n.identity.uid && id.kind == n.identity.kind
                && id.name@ == n.identity.name@ && id.namespace@ == n.identity.namespace@
            &&& r is VirtualDelete <==> !stored
            &&& r matches AfterRead::VirtualDelete(e) ==> e.is_virtual && e.kind
                == GraphChangeEventKind::Delete && e.new.kind == n.identity.kind && e.new.meta.uid
                == n.identity.uid && e.new.meta.name@ == n.identity.name@ && e.new.meta.namespace@
                == n.identity.namespace@
            &&& r is DeletingDependents <==> stored && n.deleting_dependents
            &&& r is ClassifyOwners <==> stored && !n.deleting_dependents
                && found->0.owner_references is Some
            &&& r is NoOwners <==> stored && !n.deleting_dependents
                && found->0.owner_references is None
        }),
{
    if let AfterRead::VirtualDelete(e) = r {
        assert(e.new.meta.deep_view().uid == e.new.meta.uid);
        assert(e.new.meta.deep_view().name == e.new.meta.name@);
        assert(e.new.meta.deep_view().namespace == e.new.meta.namespace@);
    }
}

} // verus!

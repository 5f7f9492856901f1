//! Keeps the dependency graph in step with the stored objects.
use vstd::prelude::*;
use crate::controllers::garbage_collector::absent_owners;
use crate::controllers::garbage_collector::absent_owners::AbsentOwnerCache;
use crate::controllers::garbage_collector::graph;
use crate::controllers::garbage_collector::graph::{Node, NodeView, UidToNodeTable};
use crate::controllers::garbage_collector::types;
use crate::controllers::garbage_collector::types::ObjectReference;
use crate::protocol::meta;
use crate::protocol::meta::{copy_owners, flag_is, same_flag, Finalizer, ObjectMeta, OwnerReference, ResourceKind};
use crate::protocol::value::Value;
use crate::seqs;
use crate::text::str_eq;

verus! {

/// An object that an event speaks of.
#[derive(Debug)]
pub struct GraphChangeEventInfo {
    pub kind: ResourceKind,
    pub meta: ObjectMeta,
}

/// What happened to an object.
#[derive(Debug, Clone, Copy, PartialEq, Eq, Structural)]
pub enum GraphChangeEventKind {
    Add,
    Update,
    Delete,
}

/// A change of an object. A virtual event comes from the collector itself.
#[derive(Debug)]
pub struct GraphEvent {
    pub kind: GraphChangeEventKind,
    pub new: GraphChangeEventInfo,
    pub old: Option<GraphChangeEventInfo>,
    pub is_virtual: bool,
}

impl GraphEvent {
    pub fn new_add(new: GraphChangeEventInfo) -> (r: Self)
        ensures
            r == (GraphEvent { kind: GraphChangeEventKind::Add, new, old: None, is_virtual: false }),
    {
        GraphEvent { kind: GraphChangeEventKind::Add, new, old: None, is_virtual: false }
    }

    pub fn new_update(old: GraphChangeEventInfo, new: GraphChangeEventInfo) -> (r: Self)
        ensures
            r.kind == GraphChangeEventKind::Update,
            r.new == new,
            r.old == Some(old),
            !r.is_virtual,
    {
        GraphEvent { kind: GraphChangeEventKind::Update, new, old: Some(old), is_virtual: false }
    }

    pub fn new_delete(meta: GraphChangeEventInfo) -> (r: Self)
        ensures
            r == (GraphEvent {
                kind: GraphChangeEventKind::Delete,
                new: meta,
                old: None,
                is_virtual: false,
            }),
    {
        GraphEvent { kind: GraphChangeEventKind::Delete, new: meta, old: None, is_virtual: false }
    }

    pub fn new_virtual_delete(info: GraphChangeEventInfo) -> (r: Self)
        ensures
            r == (GraphEvent {
                kind: GraphChangeEventKind::Delete,
                new: info,
                old: None,
                is_virtual: true,
            }),
    {
        GraphEvent { kind: GraphChangeEventKind::Delete, new: info, old: None, is_virtual: true }
    }
}

/// The dependency graph with the two work queues that it feeds: nodes to try to delete
/// and nodes whose dependents are to be orphaned.
pub struct GraphBuilder {
    pub nodes: Vec<Node>,
    pub uid_to_node_table: UidToNodeTable,
    pub attempt_to_delete: Vec<usize>,
    pub attempt_to_orphan: Vec<usize>,
    pub absent_owner_cache: AbsentOwnerCache,
}

/// The contents of the graph and its queues.
pub struct GraphView {
    pub nodes: Seq<NodeView>,
    pub table: Map<u128, usize>,
    pub deletes: Seq<usize>,
    pub orphans: Seq<usize>,
    pub absent: Seq<(u8, Seq<char>, u128, Seq<char>, u8)>,
    pub limit: nat,
}

impl View for GraphBuilder {
    type V = GraphView;

    open spec fn view(&self) -> GraphView {
        GraphView {
            nodes: graph::node_views(self.nodes@),
            table: self.uid_to_node_table@,
            deletes: self.attempt_to_delete@,
            orphans: self.attempt_to_orphan@,
            absent: self.absent_owner_cache@,
            limit: self.absent_owner_cache.limit(),
        }
    }
}

/// Whether every entry names a node.
pub open spec fn all_below(s: Seq<usize>, n: nat) -> bool {
    forall|i: int| 0 <= i < s.len() ==> #[trigger] s[i] < n
}

/// Whether an owner reference in the list has the identifier.
pub open spec fn has_uid(owners: Seq<OwnerReference>, uid: u128) -> bool {
    exists|i: int| 0 <= i < owners.len() && (#[trigger] owners[i]).uid == uid
}

/// The first owner reference with the identifier, at or after `from`.
pub open spec fn first_with_uid(owners: Seq<OwnerReference>, uid: u128, from: int) -> Option<
    OwnerReference,
>
    decreases owners.len() - from,
{
    if from < 0 || from >= owners.len() {
        None
    } else if owners[from].uid == uid {
        Some(owners[from])
    } else {
        first_with_uid(owners, uid, from + 1)
    }
}

/// The references to any other owner than `uid`.
pub open spec fn not_uid(uid: u128) -> spec_fn(OwnerReference) -> bool {
    |x: OwnerReference| x.uid != uid
}

/// The references whose identifier is not in the other list.
pub open spec fn missing_from(other: Seq<OwnerReference>) -> spec_fn(OwnerReference) -> bool {
    |o: OwnerReference| !has_uid(other, o.uid)
}

/// The pairs of an old and a new reference to one owner that differ in the blocking flag,
/// among the first `n` new ones.
pub open spec fn changed_pairs(
    old_owners: Seq<OwnerReference>,
    new_owners: Seq<OwnerReference>,
    n: int,
) -> Seq<(OwnerReference, OwnerReference)>
    decreases n,
{
    if n <= 0 {
        Seq::empty()
    } else {
        let rest = changed_pairs(old_owners, new_owners, n - 1);
        match first_with_uid(old_owners, new_owners[n - 1].uid, 0) {
            Some(o) => if o.block_owner_deletion != new_owners[n - 1].block_owner_deletion {
                rest.push((o, new_owners[n - 1]))
            } else {
                rest
            },
            None => rest,
        }
    }
}

/// The new references to owners that had none, the old ones to owners that have none any more, and
/// the pairs of those that differ in the blocking flag.
pub open spec fn reference_difference(
    old_owners: Seq<OwnerReference>,
    new_owners: Seq<OwnerReference>,
) -> (Seq<OwnerReference>, Seq<OwnerReference>, Seq<(OwnerReference, OwnerReference)>) {
    (
        new_owners.filter(missing_from(old_owners)),
        old_owners.filter(missing_from(new_owners)),
        changed_pairs(old_owners, new_owners, new_owners.len() as int),
    )
}

/// Whether no two references are to one owner.
pub open spec fn distinct_owners(s: Seq<OwnerReference>) -> bool {
    forall|i: int, j: int| 0 <= i < j < s.len() ==> (#[trigger] s[i]).uid != (#[trigger] s[j]).uid
}

/// The two references of a pair in the other order.
pub open spec fn swapped(p: (OwnerReference, OwnerReference)) -> (OwnerReference, OwnerReference) {
    (p.1, p.0)
}

/// Whether one of the owner references has the identifier, name and kind of the identity.
pub open spec fn names_identity(owners: Seq<OwnerReference>, id: ObjectReference) -> bool {
    exists|i: int|
        0 <= i < owners.len() && (#[trigger] owners[i]).uid == id.uid && owners[i].name@ == id.name@
            && owners[i].kind == id.kind
}

/// Whether the object is being deleted.
pub open spec fn is_being_deleted(meta: ObjectMeta) -> bool {
    meta.deletion_timestamp is Some
}

/// Whether the object carries the finalizer.
pub open spec fn carries(meta: ObjectMeta, f: Finalizer) -> bool {
    match meta.finalizers {
        Some(v) => v@.contains(f),
        None => false,
    }
}

/// Whether this change starts a deletion that runs the finalizer.
pub open spec fn deletion_starts(
    old_meta: Option<ObjectMeta>,
    new_meta: ObjectMeta,
    f: Finalizer,
) -> bool {
    is_being_deleted(new_meta) && carries(new_meta, f) && match old_meta {
        None => true,
        Some(m) => !is_being_deleted(m) || !carries(m, f),
    }
}

/// Whether the change of an owner reference may unblock the owner.
pub open spec fn may_unblock(p: (OwnerReference, OwnerReference)) -> bool {
    (p.0.block_owner_deletion == Some(true) && p.1.block_owner_deletion == Some(false))
        || p.1.block_owner_deletion is None
}

impl GraphView {
    /// Whether all names of nodes are names of nodes of this graph, and the node to which an
    /// identifier leads has that identifier.
    pub open spec fn wf(self) -> bool {
        &&& forall|u: u128| #[trigger]
            self.table.contains_key(u) ==> self.table[u] < self.nodes.len()
                && self.nodes[self.table[u] as int].identity.uid == u
        &&& forall|i: int|
            0 <= i < self.nodes.len() ==> all_below(
                (#[trigger] self.nodes[i]).dependents,
                self.nodes.len(),
            )
        &&& all_below(self.deletes, self.nodes.len())
        &&& all_below(self.orphans, self.nodes.len())
    }

    pub open spec fn set_node(self, n: usize, v: NodeView) -> GraphView {
        GraphView { nodes: self.nodes.update(n as int, v), ..self }
    }

    pub open spec fn push_delete(self, n: usize) -> GraphView {
        GraphView { deletes: self.deletes.push(n), ..self }
    }

    pub open spec fn push_deletes(self, s: Seq<usize>) -> GraphView {
        GraphView { deletes: self.deletes + s, ..self }
    }

    pub open spec fn record_absent(self, r: ObjectReference) -> GraphView {
        GraphView {
            absent: absent_owners::after_put(self.absent, absent_owners::key_of(r@), self.limit),
            ..self
        }
    }

    /// A new node at the end of the list, found under `uid`.
    pub open spec fn new_node(self, uid: u128, v: NodeView) -> GraphView {
        GraphView {
            nodes: self.nodes.push(v),
            table: self.table.insert(uid, self.nodes.len() as usize),
            ..self
        }
    }

    /// Makes sure that the owner has a node: a virtual one, queued for a check, when it is
    /// not known yet.
    pub open spec fn with_owner(self, node: usize, o: OwnerReference) -> GraphView {
        if self.table.contains_key(o.uid) {
            self
        } else {
            let id = ObjectReference::of_owner(o, self.nodes[node as int].identity.namespace);
            self.new_node(o.uid, graph::fresh_node(id, true)).push_delete(self.nodes.len() as usize)
        }
    }

    /// Makes `node` a dependent of the owner.
    pub open spec fn link(self, node: usize, o: OwnerReference) -> GraphView {
        let g = self.with_owner(node, o);
        let owner = g.table[o.uid];
        let g1 = g.set_node(
            node,
            NodeView { owners: g.nodes[node as int].owners.push(o), ..g.nodes[node as int] },
        );
        g1.set_node(
            owner,
            NodeView {
                dependents: g1.nodes[owner as int].dependents.push(node),
                ..g1.nodes[owner as int]
            },
        )
    }

    /// Makes `node` a dependent of the first `n` owners.
    pub open spec fn link_all(self, node: usize, owners: Seq<OwnerReference>, n: int) -> GraphView
        decreases n,
    {
        if n <= 0 {
            self
        } else {
            self.link_all(node, owners, n - 1).link(node, owners[n - 1])
        }
    }

    /// Ends the dependence of `node` on the owner.
    pub open spec fn unlink(self, node: usize, o: OwnerReference) -> GraphView {
        let g = match graph::lookup(self.table, o.uid) {
            Some(owner) => self.set_node(
                owner,
                NodeView {
                    dependents: self.nodes[owner as int].dependents.filter(graph::not_node(node)),
                    ..self.nodes[owner as int]
                },
            ),
            None => self,
        };
        g.set_node(
            node,
            NodeView {
                owners: g.nodes[node as int].owners.filter(not_uid(o.uid)),
                ..g.nodes[node as int]
            },
        )
    }

    /// Ends the dependence of `node` on the first `n` owners.
    pub open spec fn unlink_all(self, node: usize, owners: Seq<OwnerReference>, n: int) -> GraphView
        decreases n,
    {
        if n <= 0 {
            self
        } else {
            self.unlink_all(node, owners, n - 1).unlink(node, owners[n - 1])
        }
    }

    /// Whether a node names the identity among its owners.
    pub open spec fn matches(self, id: ObjectReference) -> spec_fn(usize) -> bool {
        |d: usize| names_identity(self.nodes[d as int].owners, id)
    }

    pub open spec fn mismatches(self, id: ObjectReference) -> spec_fn(usize) -> bool {
        |d: usize| !names_identity(self.nodes[d as int].owners, id)
    }

    /// The owners, among the first `n` removed ones, whose deletion was blocked.
    pub open spec fn unblocked_by_removal(self, removed: Seq<OwnerReference>, n: int) -> Seq<usize>
        decreases n,
    {
        if n <= 0 {
            Seq::empty()
        } else {
            let rest = self.unblocked_by_removal(removed, n - 1);
            let o = removed[n - 1];
            if o.block_owner_deletion == Some(true) && self.table.contains_key(o.uid) {
                rest.push(self.table[o.uid])
            } else {
                rest
            }
        }
    }

    /// The owners, among the first `n` changed ones, that may no longer be blocked.
    pub open spec fn unblocked_by_change(
        self,
        changed: Seq<(OwnerReference, OwnerReference)>,
        n: int,
    ) -> Seq<usize>
        decreases n,
    {
        if n <= 0 {
            Seq::empty()
        } else {
            let rest = self.unblocked_by_change(changed, n - 1);
            let p = changed[n - 1];
            if may_unblock(p) && self.table.contains_key(p.1.uid) {
                rest.push(self.table[p.1.uid])
            } else {
                rest
            }
        }
    }

    /// The owners, among the first `n`, that wait for their dependents to be deleted.
    pub open spec fn waiting_owners(self, owners: Seq<OwnerReference>, n: int) -> Seq<usize>
        decreases n,
    {
        if n <= 0 {
            Seq::empty()
        } else {
            let rest = self.waiting_owners(owners, n - 1);
            let u = owners[n - 1].uid;
            if self.table.contains_key(u) && self.nodes[self.table[u] as int].deleting_dependents {
                rest.push(self.table[u])
            } else {
                rest
            }
        }
    }

    /// What the start of a deletion with a finalizer queues.
    pub open spec fn transition(
        self,
        node: usize,
        old_meta: Option<ObjectMeta>,
        new_meta: ObjectMeta,
    ) -> GraphView {
        if deletion_starts(old_meta, new_meta, Finalizer::OrphanDependents) {
            GraphView { orphans: self.orphans.push(node), ..self }
        } else if deletion_starts(old_meta, new_meta, Finalizer::DeletingDependents) {
            let g = self.set_node(
                node,
                NodeView { deleting_dependents: true, ..self.nodes[node as int] },
            );
            g.push_deletes(g.nodes[node as int].dependents).push_delete(node)
        } else {
            self
        }
    }

    /// A node that was only referred to is seen for the first time. When it turns out to be
    /// another object than the one referred to, its unmatched dependents are queued and a
    /// node of the seen identity takes its place in the table.
    pub open spec fn observe(self, e: GraphEvent, n: usize) -> GraphView {
        if !e.is_virtual && self.nodes[n as int].is_virtual {
            let seen = ObjectReference::of_meta(e.new.meta, e.new.kind);
            let g = if seen@ != self.nodes[n as int].identity@ {
                self.push_deletes(
                    self.nodes[n as int].dependents.filter(self.mismatches(seen)),
                ).new_node(
                    e.new.meta.uid,
                    NodeView { identity: seen, ..self.nodes[n as int] },
                )
            } else {
                self
            };
            g.set_node(n, NodeView { is_virtual: false, ..g.nodes[n as int] })
        } else {
            self
        }
    }

    /// The owners of a node follow its object.
    pub open spec fn update_owners(self, n: usize, new_owners: Seq<OwnerReference>) -> GraphView {
        let old_owners = self.nodes[n as int].owners;
        let added = new_owners.filter(missing_from(old_owners));
        let removed = old_owners.filter(missing_from(new_owners));
        let changed = changed_pairs(old_owners, new_owners, new_owners.len() as int);
        if added.len() > 0 || removed.len() > 0 || changed.len() > 0 {
            let g = self.push_deletes(
                self.unblocked_by_removal(removed, removed.len() as int),
            ).push_deletes(self.unblocked_by_change(changed, changed.len() as int));
            let g1 = g.set_node(n, NodeView { owners: new_owners, ..g.nodes[n as int] });
            g1.link_all(n, added, added.len() as int).unlink_all(n, removed, removed.len() as int)
        } else {
            self
        }
    }

    /// A known object was added or updated.
    pub open spec fn updated(self, n: usize, e: GraphEvent) -> GraphView {
        let g = self.update_owners(n, types::owners_of(e.new.meta));
        let g1 = if is_being_deleted(e.new.meta) {
            g.set_node(n, NodeView { being_deleted: true, ..g.nodes[n as int] })
        } else {
            g
        };
        g1.transition(
            n,
            match e.old {
                Some(i) => Some(i.meta),
                None => None,
            },
            e.new.meta,
        )
    }

    /// An object that had no node was added.
    pub open spec fn added(self, e: GraphEvent) -> GraphView {
        let m = e.new.meta;
        let n = self.nodes.len() as usize;
        let v = graph::fresh_node(ObjectReference::of_meta(m, e.new.kind), false);
        let v1 = NodeView {
            deleting_dependents: is_being_deleted(m) && carries(m, Finalizer::DeletingDependents),
            being_deleted: is_being_deleted(m),
            ..v
        };
        let g = self.new_node(m.uid, v1);
        let owners = types::owners_of(m);
        g.link_all(n, owners, owners.len() as int).transition(n, None, m)
    }

    /// A virtual deletion of a node that is itself only referred to, when some dependents
    /// refer to it by another identity: those that refer to the deleted one are queued, and
    /// when the node stood for the deleted one a copy takes its place and is queued.
    pub open spec fn keep_virtual(self, n: usize, deleted: ObjectReference) -> GraphView {
        let deps = self.nodes[n as int].dependents;
        let matched = deps.filter(self.matches(deleted));
        let unmatched = deps.filter(self.mismatches(deleted));
        let g = if matched.len() > 0 {
            self.record_absent(deleted).push_deletes(matched)
        } else {
            self
        };
        if g.nodes[n as int].identity@ == deleted@ {
            match first_with_uid(g.nodes[unmatched[0] as int].owners, deleted.uid, 0) {
                Some(o) => g.new_node(o.uid, g.nodes[n as int]).push_delete(
                    g.nodes.len() as usize,
                ),
                None => g,
            }
        } else {
            g
        }
    }

    /// A virtual deletion of another identity than the one that was seen: the dependents
    /// that refer to the deleted one are queued.
    pub open spec fn keep_observed(self, n: usize, deleted: ObjectReference) -> GraphView {
        let matched = self.nodes[n as int].dependents.filter(self.matches(deleted));
        if matched.len() > 0 {
            self.record_absent(deleted).push_deletes(matched)
        } else {
            self
        }
    }

    /// The node leaves the graph: it is no longer a dependent, its own dependents are
    /// queued, and so are the owners that wait for it.
    pub open spec fn removed(self, n: usize, e: GraphEvent) -> GraphView {
        let g = GraphView { table: self.table.remove(e.new.meta.uid), ..self };
        let owners = g.nodes[n as int].owners;
        let g1 = g.unlink_all(n, owners, owners.len() as int);
        let deps = g1.nodes[n as int].dependents;
        let g2 = if deps.len() > 0 {
            g1.record_absent(ObjectReference::of_meta(e.new.meta, e.new.kind))
        } else {
            g1
        };
        let g3 = g2.push_deletes(deps);
        g3.push_deletes(g3.waiting_owners(owners, owners.len() as int))
    }

    /// A known object was deleted.
    pub open spec fn deleted(self, n: usize, e: GraphEvent) -> GraphView {
        let id = ObjectReference::of_meta(e.new.meta, e.new.kind);
        let node = self.nodes[n as int];
        if e.is_virtual && node.is_virtual && node.dependents.filter(self.mismatches(id)).len()
            > 0 {
            self.keep_virtual(n, id)
        } else if e.is_virtual && !node.is_virtual && node.identity@ != id@ {
            self.keep_observed(n, id)
        } else {
            self.removed(n, e)
        }
    }

    /// The graph after an event.
    pub open spec fn step(self, e: GraphEvent) -> GraphView {
        match graph::lookup(self.table, e.new.meta.uid) {
            Some(n) => {
                let g = self.observe(e, n);
                match e.kind {
                    GraphChangeEventKind::Delete => g.deleted(n, e),
                    _ => g.updated(n, e),
                }
            },
            None => match e.kind {
                GraphChangeEventKind::Delete => self,
                _ => self.added(e),
            },
        }
    }
}


proof fn lemma_link_wf(g: GraphView, node: usize, o: OwnerReference)
    requires
        g.wf(),
        node < g.nodes.len(),
        g.nodes.len() < usize::MAX,
    ensures
        g.link(node, o).wf(),
        g.link(node, o).nodes.len() >= g.nodes.len(),
{
    let a = g.with_owner(node, o);
    assert(a.wf());
    let b = g.link(node, o);
    assert forall|i: int| 0 <= i < b.nodes.len() implies all_below(
        (#[trigger] b.nodes[i]).dependents,
        b.nodes.len(),
    ) by {
        assert(all_below(a.nodes[i].dependents, a.nodes.len()));
        assert(a.table[o.uid] < a.nodes.len());
    }
}

proof fn lemma_unlink_wf(g: GraphView, node: usize, o: OwnerReference)
    requires
        g.wf(),
        node < g.nodes.len(),
    ensures
        g.unlink(node, o).wf(),
        g.unlink(node, o).nodes.len() == g.nodes.len(),
{
    let b = g.unlink(node, o);
    let p = graph::not_node(node);
    assert forall|i: int| 0 <= i < b.nodes.len() implies all_below(
        (#[trigger] b.nodes[i]).dependents,
        b.nodes.len(),
    ) by {
        let deps = g.nodes[i].dependents;
        assert(all_below(deps, g.nodes.len()));
        lemma_filter_below(deps, p, g.nodes.len());
    }
}

proof fn lemma_filter_below(s: Seq<usize>, p: spec_fn(usize) -> bool, n: nat)
    requires
        all_below(s, n),
    ensures
        all_below(s.filter(p), n),
{
    seqs::lemma_filter_members(s, p);
    assert forall|i: int| 0 <= i < s.filter(p).len() implies #[trigger] s.filter(p)[i] < n by {
        assert(s.filter(p).contains(s.filter(p)[i]));
    }
}

/// Whether the list holds a reference with the identifier.
fn holds_uid(owners: &Vec<OwnerReference>, uid: u128) -> (r: bool)
    ensures
        r == has_uid(owners@, uid),
{
    for i in 0..owners.len()
        invariant
            forall|j: int| 0 <= j < i ==> (#[trigger] owners@[j]).uid != uid,
    {
        if owners[i].uid == uid {
            return true;
        }
    }
    false
}

/// The first reference with the identifier.
fn find_uid(owners: &Vec<OwnerReference>, uid: u128) -> (r: Option<&OwnerReference>)
    ensures
        match r {
            Some(o) => first_with_uid(owners@, uid, 0) == Some(*o),
            None => first_with_uid(owners@, uid, 0) is None,
        },
{
    let mut i: usize = 0;
    while i < owners.len()
        invariant
            i <= owners@.len(),
            first_with_uid(owners@, uid, 0) == first_with_uid(owners@, uid, i as int),
        decreases owners@.len() - i,
    {
        if owners[i].uid == uid {
            return Some(&owners[i]);
        }
        i = i + 1;
    }
    None
}

proof fn lemma_first_with_uid(owners: Seq<OwnerReference>, uid: u128, from: int)
    requires
        0 <= from <= owners.len(),
    ensures
        first_with_uid(owners, uid, from) is None <==> forall|j: int|
            from <= j < owners.len() ==> (#[trigger] owners[j]).uid != uid,
        first_with_uid(owners, uid, from) matches Some(o) ==> owners.contains(o) && o.uid == uid,
    decreases owners.len() - from,
{
    if from < owners.len() {
        if owners[from].uid != uid {
            lemma_first_with_uid(owners, uid, from + 1);
        }
    }
}

/// The difference between old and new owner references: those added, those removed, and
/// the old and new form of those whose blocking flag changed.
pub fn get_reference_difference(
    old_owners: &Vec<OwnerReference>,
    new_owners: &Vec<OwnerReference>,
) -> (r: (Vec<OwnerReference>, Vec<OwnerReference>, Vec<(OwnerReference, OwnerReference)>))
    ensures
        (r.0@, r.1@, r.2@) == reference_difference(old_owners@, new_owners@),
{
    let mut added: Vec<OwnerReference> = Vec::new();
    let mut removed: Vec<OwnerReference> = Vec::new();
    let mut changed: Vec<(OwnerReference, OwnerReference)> = Vec::new();
    proof {
        seqs::lemma_filter_none(new_owners@, missing_from(old_owners@));
        seqs::lemma_filter_none(old_owners@, missing_from(new_owners@));
    }
    for i in 0..new_owners.len()
        invariant
            added@ == new_owners@.take(i as int).filter(missing_from(old_owners@)),
            changed@ == changed_pairs(old_owners@, new_owners@, i as int),
    {
        let n = &new_owners[i];
        proof {
            seqs::lemma_filter_take(new_owners@, missing_from(old_owners@), i as int);
            lemma_first_with_uid(old_owners@, n.uid, 0);
        }
        match find_uid(old_owners, n.uid) {
            Some(o) => {
                proof {
                    let k = choose|k: int| 0 <= k < old_owners@.len() && old_owners@[k] == *o;
                    assert(old_owners@[k].uid == n.uid);
                    assert(has_uid(old_owners@, n.uid));
                }
                if !same_flag(o.block_owner_deletion, n.block_owner_deletion) {
                    changed.push((o.copy(), n.copy()));
                }
            },
            None => {
                assert(!has_uid(old_owners@, n.uid));
                added.push(n.copy());
            },
        }
    }
    for i in 0..old_owners.len()
        invariant
            removed@ == old_owners@.take(i as int).filter(missing_from(new_owners@)),
    {
        let o = &old_owners[i];
        proof {
            seqs::lemma_filter_take(old_owners@, missing_from(new_owners@), i as int);
        }
        if !holds_uid(new_owners, o.uid) {
            removed.push(o.copy());
        }
    }
    (added, removed, changed)
}

/// Whether the object is being deleted.
pub fn being_deleted(meta: &ObjectMeta) -> (r: bool)
    ensures
        r == is_being_deleted(*meta),
{
    meta.deletion_timestamp.is_some()
}

/// Whether the object waits for its dependents to be deleted before it is removed.
pub fn has_delete_dependents_finalizer(meta: &ObjectMeta) -> (r: bool)
    ensures
        r == carries(*meta, Finalizer::DeletingDependents),
{
    has_finalizer(meta, Finalizer::DeletingDependents)
}

/// Whether the object's dependents are to be orphaned before it is removed.
pub fn has_orphan_dependents_finalizer(meta: &ObjectMeta) -> (r: bool)
    ensures
        r == carries(*meta, Finalizer::OrphanDependents),
{
    has_finalizer(meta, Finalizer::OrphanDependents)
}

fn has_finalizer(meta: &ObjectMeta, finalizer: Finalizer) -> (r: bool)
    ensures
        r == carries(*meta, finalizer),
{
    match &meta.finalizers {
        Some(v) => {
            for i in 0..v.len()
                invariant
                    meta.finalizers == Some(*v),
                    forall|j: int| 0 <= j < i ==> v@[j] != finalizer,
            {
                if v[i] == finalizer {
                    assert(v@[i as int] == finalizer);
                    return true;
                }
            }
            false
        },
        None => false,
    }
}

fn deletion_starts_with_finalizer(
    old_meta: Option<&ObjectMeta>,
    new_meta: &ObjectMeta,
    finalizer: Finalizer,
) -> (r: bool)
    ensures
        r == deletion_starts(
            match old_meta {
                Some(m) => Some(*m),
                None => None,
            },
            *new_meta,
            finalizer,
        ),
{
    if !being_deleted(new_meta) || !has_finalizer(new_meta, finalizer) {
        return false;
    }
    match old_meta {
        None => true,
        Some(m) => !being_deleted(m) || !has_finalizer(m, finalizer),
    }
}

impl GraphBuilder {
    /// A graph without objects.
    pub fn new() -> (r: Self)
        ensures
            r@.wf(),
            r@.nodes.len() == 0,
            r@.table == Map::<u128, usize>::empty(),
            r@.deletes.len() == 0,
            r@.orphans.len() == 0,
            r@.absent.len() == 0,
            r@.limit == absent_owners::ABSENT_OWNER_LIMIT,
    {
        GraphBuilder {
            nodes: Vec::new(),
            uid_to_node_table: UidToNodeTable::new(),
            attempt_to_delete: Vec::new(),
            attempt_to_orphan: Vec::new(),
            absent_owner_cache: AbsentOwnerCache::new(),
        }
    }

    fn queue_all(&mut self, s: &Vec<usize>)
        ensures
            final(self)@ == old(self)@.push_deletes(s@),
            final(self).nodes == old(self).nodes,
    {
        let ghost g0 = self@;
        for i in 0..s.len()
            invariant
                self@ == g0.push_deletes(s@.take(i as int)),
                self.nodes == old(self).nodes,
        {
            self.attempt_to_delete.push(s[i]);
            assert(s@.take(i as int + 1) =~= s@.take(i as int).push(s@[i as int]));
            assert(self@.deletes =~= g0.deletes + s@.take(i as int + 1));
        }
        assert(s@.take(s@.len() as int) =~= s@);
        assert(g0.deletes + Seq::<usize>::empty() =~= g0.deletes);
    }

    fn link_owner(&mut self, node: usize, o: &OwnerReference)
        requires
            old(self)@.wf(),
            node < old(self)@.nodes.len(),
            old(self)@.nodes.len() < usize::MAX,
        ensures
            final(self)@ == old(self)@.link(node, *o),
            final(self)@.wf(),
            final(self)@.nodes.len() >= old(self)@.nodes.len(),
            final(self)@.nodes.len() <= old(self)@.nodes.len() + 1,
    {
        let ghost g0 = self@;
        proof {
            lemma_link_wf(g0, node, *o);
        }
        let owner: usize = match self.uid_to_node_table.get(&o.uid) {
            Some(n) => n,
            None => {
                let id = ObjectReference::from_owner_reference(
                    o,
                    self.nodes[node].identity.namespace.clone(),
                );
                let n = self.nodes.len();
                let v = Node::new(id, true);
                self.nodes.push(v);
                self.uid_to_node_table.insert(o.uid, n);
                self.attempt_to_delete.push(n);
                n
            },
        };
        proof {
            let g = g0.with_owner(node, *o);
            assert(self@.nodes =~= g.nodes);
            assert(self@ == g);
        }
        let ghost g1 = self@;
        self.nodes[node].owners.push(o.copy());
        proof {
            assert(self@.nodes =~= g1.set_node(
                node,
                NodeView { owners: g1.nodes[node as int].owners.push(*o), ..g1.nodes[node as int] },
            ).nodes);
        }
        let ghost g2 = self@;
        self.nodes[owner].add_dependent(node);
        proof {
            assert(self@.nodes =~= g2.set_node(
                owner,
                NodeView {
                    dependents: g2.nodes[owner as int].dependents.push(node),
                    ..g2.nodes[owner as int]
                },
            ).nodes);
        }
    }

    fn unlink_owner(&mut self, node: usize, o: &OwnerReference)
        requires
            old(self)@.wf(),
            node < old(self)@.nodes.len(),
        ensures
            final(self)@ == old(self)@.unlink(node, *o),
            final(self)@.wf(),
            final(self)@.nodes.len() == old(self)@.nodes.len(),
    {
        let ghost g0 = self@;
        proof {
            lemma_unlink_wf(g0, node, *o);
        }
        match self.uid_to_node_table.get(&o.uid) {
            Some(owner) => {
                self.nodes[owner].remove_dependent(node);
                proof {
                    assert(self@.nodes =~= g0.set_node(
                        owner,
                        NodeView {
                            dependents: g0.nodes[owner as int].dependents.filter(
                                graph::not_node(node),
                            ),
                            ..g0.nodes[owner as int]
                        },
                    ).nodes);
                }
            },
            None => {},
        }
        let ghost g1 = self@;
        let ghost p = not_uid(o.uid);
        let mut kept: Vec<OwnerReference> = Vec::new();
        proof {
            seqs::lemma_filter_none(self.nodes@[node as int].owners@, p);
        }
        let count = self.nodes[node].owners.len();
        for i in 0..count
            invariant
                self@ == g1,
                count == self.nodes@[node as int].owners@.len(),
                p == not_uid(o.uid),
                node < self.nodes@.len(),
                kept@ == self.nodes@[node as int].owners@.take(i as int).filter(p),
        {
            proof {
                seqs::lemma_filter_take(self.nodes@[node as int].owners@, p, i as int);
            }
            if self.nodes[node].owners[i].uid != o.uid {
                kept.push(self.nodes[node].owners[i].copy());
            }
        }
        self.nodes[node].set_owners(kept);
        proof {
            assert(self@.nodes =~= g1.set_node(
                node,
                NodeView { owners: kept@, ..g1.nodes[node as int] },
            ).nodes);
        }
    }

    /// Makes the node a dependent of its owners. An owner without a node gets a virtual
    /// one, which is queued for a check.
    pub fn add_dependent_to_owners(&mut self, node: usize, owners: &Vec<OwnerReference>)
        requires
            old(self)@.wf(),
            node < old(self)@.nodes.len(),
            old(self)@.nodes.len() + owners@.len() < usize::MAX,
        ensures
            final(self)@ == old(self)@.link_all(node, owners@, owners@.len() as int),
            final(self)@.wf(),
            final(self)@.nodes.len() >= old(self)@.nodes.len(),
            final(self)@.nodes.len() <= old(self)@.nodes.len() + owners@.len(),
    {
        let ghost g0 = self@;
        for i in 0..owners.len()
            invariant
                self@ == g0.link_all(node, owners@, i as int),
                self@.wf(),
                node < g0.nodes.len() <= self@.nodes.len() <= g0.nodes.len() + i,
                g0.nodes.len() + owners@.len() < usize::MAX,
        {
            self.link_owner(node, &owners[i]);
        }
    }

    /// Ends the dependence of the node on the owners.
    pub fn remove_dependent_from_owners(&mut self, node: usize, owners: &Vec<OwnerReference>)
        requires
            old(self)@.wf(),
            node < old(self)@.nodes.len(),
        ensures
            final(self)@ == old(self)@.unlink_all(node, owners@, owners@.len() as int),
            final(self)@.wf(),
            final(self)@.nodes.len() == old(self)@.nodes.len(),
    {
        let ghost g0 = self@;
        for i in 0..owners.len()
            invariant
                self@ == g0.unlink_all(node, owners@, i as int),
                self@.wf(),
                node < g0.nodes.len() == self@.nodes.len(),
        {
            self.unlink_owner(node, &owners[i]);
        }
    }

    /// The dependents that name the identity among their owners, and the others.
    fn partition_dependents_by_identity(
        &self,
        node: usize,
        identity: &ObjectReference,
    ) -> (r: (Vec<usize>, Vec<usize>))
        requires
            self@.wf(),
            node < self@.nodes.len(),
        ensures
            r.0@ == self@.nodes[node as int].dependents.filter(self@.matches(*identity)),
            r.1@ == self@.nodes[node as int].dependents.filter(self@.mismatches(*identity)),
    {
        let ghost yes = self@.matches(*identity);
        let ghost no = self@.mismatches(*identity);
        let mut matched: Vec<usize> = Vec::new();
        let mut unmatched: Vec<usize> = Vec::new();
        let deps = &self.nodes[node].dependents;
        proof {
            assert(self@.nodes[node as int].dependents == deps@);
            assert(all_below(self@.nodes[node as int].dependents, self@.nodes.len()));
            seqs::lemma_filter_none(deps@, yes);
            seqs::lemma_filter_none(deps@, no);
        }
        for i in 0..deps.len()
            invariant
                all_below(deps@, self@.nodes.len()),
                yes == self@.matches(*identity),
                no == self@.mismatches(*identity),
                matched@ == deps@.take(i as int).filter(yes),
                unmatched@ == deps@.take(i as int).filter(no),
        {
            let d = deps[i];
            proof {
                assert(deps@[i as int] < self@.nodes.len());
                seqs::lemma_filter_take(deps@, yes, i as int);
                seqs::lemma_filter_take(deps@, no, i as int);
                assert(self@.nodes[d as int].owners == self.nodes@[d as int].owners@);
            }
            if names_object(&self.nodes[d].owners, identity) {
                matched.push(d);
            } else {
                unmatched.push(d);
            }
        }
        (matched, unmatched)
    }

    fn process_transition(
        &mut self,
        node: usize,
        old_meta: Option<&ObjectMeta>,
        new_meta: &ObjectMeta,
    )
        requires
            old(self)@.wf(),
            node < old(self)@.nodes.len(),
        ensures
            final(self)@ == old(self)@.transition(
                node,
                match old_meta {
                    Some(m) => Some(*m),
                    None => None,
                },
                *new_meta,
            ),
            final(self)@.wf(),
    {
        let ghost g0 = self@;
        if deletion_starts_with_finalizer(old_meta, new_meta, Finalizer::OrphanDependents) {
            self.attempt_to_orphan.push(node);
            return;
        }
        if deletion_starts_with_finalizer(old_meta, new_meta, Finalizer::DeletingDependents) {
            self.nodes[node].set_deleting_dependents();
            let ghost g1 = g0.set_node(
                node,
                NodeView { deleting_dependents: true, ..g0.nodes[node as int] },
            );
            assert(self@.nodes =~= g1.nodes);
            assert(self@ == g1);
            let deps = self.nodes[node].copy().dependents;
            assert(deps@ == g1.nodes[node as int].dependents);
            assert(all_below(g0.nodes[node as int].dependents, g0.nodes.len()));
            self.queue_all(&deps);
            self.attempt_to_delete.push(node);
        }
    }

    fn observe_node(&mut self, event: &GraphEvent, n: usize)
        requires
            old(self)@.wf(),
            n < old(self)@.nodes.len(),
            old(self)@.nodes.len() < usize::MAX,
        ensures
            final(self)@ == old(self)@.observe(*event, n),
            final(self)@.wf(),
            old(self)@.nodes.len() <= final(self)@.nodes.len() <= old(self)@.nodes.len() + 1,
    {
        let ghost g0 = self@;
        if !event.is_virtual && self.nodes[n].is_virtual() {
            let seen = ObjectReference::from_meta(&event.new.meta, event.new.kind);
            if !seen.same(self.nodes[n].identity()) {
                let (_, unmatched) = self.partition_dependents_by_identity(n, &seen);
                proof {
                    assert(all_below(g0.nodes[n as int].dependents, g0.nodes.len()));
                    lemma_filter_below(
                        g0.nodes[n as int].dependents,
                        g0.mismatches(seen),
                        g0.nodes.len(),
                    );
                }
                self.queue_all(&unmatched);
                let mut copy = self.nodes[n].copy();
                copy.set_identity(seen);
                let at = self.nodes.len();
                self.nodes.push(copy);
                self.uid_to_node_table.insert(event.new.meta.uid, at);
                proof {
                    let g1 = g0.push_deletes(
                        g0.nodes[n as int].dependents.filter(g0.mismatches(seen)),
                    ).new_node(
                        event.new.meta.uid,
                        NodeView { identity: seen, ..g0.nodes[n as int] },
                    );
                    assert(self@.nodes =~= g1.nodes);
                    assert(self@ == g1);
                }
            }
            let ghost g2 = self@;
            proof {
                assert(g2.wf()) by {
                    assert forall|i: int| 0 <= i < g2.nodes.len() implies all_below(
                        (#[trigger] g2.nodes[i]).dependents,
                        g2.nodes.len(),
                    ) by {
                        if i < g0.nodes.len() {
                            assert(all_below(g0.nodes[i].dependents, g0.nodes.len()));
                        } else {
                            assert(all_below(g0.nodes[n as int].dependents, g0.nodes.len()));
                        }
                    }
                }
            }
            self.nodes[n].set_observed();
            proof {
                assert(self@.nodes =~= g2.set_node(
                    n,
                    NodeView { is_virtual: false, ..g2.nodes[n as int] },
                ).nodes);
                assert(all_below(g2.nodes[n as int].dependents, g2.nodes.len()));
            }
        }
    }

    fn change_owners(&mut self, n: usize, new_owners: &Vec<OwnerReference>)
        requires
            old(self)@.wf(),
            n < old(self)@.nodes.len(),
            old(self)@.nodes.len() + new_owners@.len() < usize::MAX,
        ensures
            final(self)@ == old(self)@.update_owners(n, new_owners@),
            final(self)@.wf(),
            n < final(self)@.nodes.len(),
    {
        let ghost g0 = self@;
        let (added, removed, changed) = get_reference_difference(
            &self.nodes[n].owners,
            new_owners,
        );
        proof {
            new_owners@.lemma_filter_len(missing_from(g0.nodes[n as int].owners));
        }
        if added.len() > 0 || removed.len() > 0 || changed.len() > 0 {
            let mut unblocked: Vec<usize> = Vec::new();
            for i in 0..removed.len()
                invariant
                    self@ == g0,
                    g0.wf(),
                    unblocked@ == g0.unblocked_by_removal(removed@, i as int),
                    all_below(unblocked@, g0.nodes.len()),
            {
                if flag_is(removed[i].block_owner_deletion, true) {
                    match self.uid_to_node_table.get(&removed[i].uid) {
                        Some(owner) => unblocked.push(owner),
                        None => {},
                    }
                }
            }
            self.queue_all(&unblocked);
            let ghost g1 = self@;
            let mut loosened: Vec<usize> = Vec::new();
            for i in 0..changed.len()
                invariant
                    self@ == g1,
                    g1.table == g0.table,
                    g1.nodes == g0.nodes,
                    g0.wf(),
                    loosened@ == g0.unblocked_by_change(changed@, i as int),
                    all_below(loosened@, g0.nodes.len()),
            {
                let was = changed[i].0.block_owner_deletion;
                let is = changed[i].1.block_owner_deletion;
                if (flag_is(was, true) && flag_is(is, false)) || is.is_none() {
                    match self.uid_to_node_table.get(&changed[i].1.uid) {
                        Some(owner) => loosened.push(owner),
                        None => {},
                    }
                }
            }
            self.queue_all(&loosened);
            let ghost g2 = self@;
            let all = copy_owners(new_owners);
            self.nodes[n].set_owners(all);
            proof {
                assert(self@.nodes =~= g2.set_node(
                    n,
                    NodeView { owners: new_owners@, ..g2.nodes[n as int] },
                ).nodes);
                assert forall|i: int| 0 <= i < self@.nodes.len() implies all_below(
                    (#[trigger] self@.nodes[i]).dependents,
                    self@.nodes.len(),
                ) by {
                    assert(all_below(g0.nodes[i].dependents, g0.nodes.len()));
                }
            }
            self.add_dependent_to_owners(n, &added);
            self.remove_dependent_from_owners(n, &removed);
        }
    }

    fn update_node(&mut self, n: usize, event: &GraphEvent)
        requires
            old(self)@.wf(),
            n < old(self)@.nodes.len(),
            old(self)@.nodes.len() + types::owners_of(event.new.meta).len() < usize::MAX,
        ensures
            final(self)@ == old(self)@.updated(n, *event),
            final(self)@.wf(),
    {
        match &event.new.meta.owner_references {
            Some(owners) => self.change_owners(n, owners),
            None => {
                let none: Vec<OwnerReference> = Vec::new();
                self.change_owners(n, &none)
            },
        }
        let ghost g1 = self@;
        if being_deleted(&event.new.meta) {
            self.nodes[n].set_being_deleted();
            proof {
                assert(self@.nodes =~= g1.set_node(
                    n,
                    NodeView { being_deleted: true, ..g1.nodes[n as int] },
                ).nodes);
                assert forall|i: int| 0 <= i < self@.nodes.len() implies all_below(
                    (#[trigger] self@.nodes[i]).dependents,
                    self@.nodes.len(),
                ) by {
                    assert(all_below(g1.nodes[i].dependents, g1.nodes.len()));
                }
            }
        }
        match &event.old {
            Some(info) => self.process_transition(n, Some(&info.meta), &event.new.meta),
            None => self.process_transition(n, None, &event.new.meta),
        }
    }

    fn add_node(&mut self, event: &GraphEvent)
        requires
            old(self)@.wf(),
            old(self)@.nodes.len() + types::owners_of(event.new.meta).len() + 1 < usize::MAX,
        ensures
            final(self)@ == old(self)@.added(*event),
            final(self)@.wf(),
    {
        let ghost g0 = self@;
        let meta = &event.new.meta;
        let mut v = Node::new(ObjectReference::from_meta(meta, event.new.kind), false);
        if being_deleted(meta) && has_delete_dependents_finalizer(meta) {
            v.set_deleting_dependents();
        }
        if being_deleted(meta) {
            v.set_being_deleted();
        }
        let n = self.nodes.len();
        let ghost vv = v@;
        self.nodes.push(v);
        self.uid_to_node_table.insert(meta.uid, n);
        proof {
            let g1 = g0.new_node(meta.uid, vv);
            assert(self@.nodes =~= g1.nodes);
            assert(self@ == g1);
            assert forall|i: int| 0 <= i < g1.nodes.len() implies all_below(
                (#[trigger] g1.nodes[i]).dependents,
                g1.nodes.len(),
            ) by {
                if i < g0.nodes.len() {
                    assert(all_below(g0.nodes[i].dependents, g0.nodes.len()));
                }
            }
        }
        match &meta.owner_references {
            Some(owners) => self.add_dependent_to_owners(n, owners),
            None => {},
        }
        self.process_transition(n, None, meta);
    }

    fn remove_node(&mut self, n: usize, event: &GraphEvent)
        requires
            old(self)@.wf(),
            n < old(self)@.nodes.len(),
        ensures
            final(self)@ == old(self)@.removed(n, *event),
            final(self)@.wf(),
    {
        let ghost g0 = self@;
        self.uid_to_node_table.remove(&event.new.meta.uid);
        let owners = copy_owners(&self.nodes[n].owners);
        assert(owners@ == g0.nodes[n as int].owners);
        proof {
            assert(self@.nodes == g0.nodes);
            assert forall|u: u128| #[trigger] self@.table.contains_key(u) implies self@.table[u]
                < self@.nodes.len() by {
                assert(g0.table.contains_key(u));
            }
        }
        self.remove_dependent_from_owners(n, &owners);
        let ghost g1 = self@;
        let deps = self.nodes[n].copy().dependents;
        assert(deps@ == g1.nodes[n as int].dependents);
        assert(all_below(g1.nodes[n as int].dependents, g1.nodes.len()));
        if deps.len() > 0 {
            let id = ObjectReference::from_meta(&event.new.meta, event.new.kind);
            self.absent_owner_cache.put(&id);
        }
        self.queue_all(&deps);
        let ghost g2 = self@;
        proof {
            assert(g2.nodes == g1.nodes && g2.table == g1.table && g2.orphans == g1.orphans);
        }
        let mut waiting: Vec<usize> = Vec::new();
        for i in 0..owners.len()
            invariant
                self@ == g2,
                g2.wf(),
                waiting@ == g2.waiting_owners(owners@, i as int),
                all_below(waiting@, g2.nodes.len()),
        {
            match self.uid_to_node_table.get(&owners[i].uid) {
                Some(owner) => {
                    assert(g2.nodes[owner as int] == self.nodes@[owner as int]@);
                    if self.nodes[owner].is_deleting_dependents() {
                        waiting.push(owner);
                    }
                },
                None => {},
            }
        }
        self.queue_all(&waiting);
    }

    fn delete_node(&mut self, n: usize, event: &GraphEvent)
        requires
            old(self)@.wf(),
            n < old(self)@.nodes.len(),
            old(self)@.nodes.len() < usize::MAX,
        ensures
            final(self)@ == old(self)@.deleted(n, *event),
            final(self)@.wf(),
    {
        let ghost g0 = self@;
        assert(all_below(g0.nodes[n as int].dependents, g0.nodes.len()));
        assert(g0.nodes[n as int] == self.nodes@[n as int]@);
        if event.is_virtual {
            let deleted = ObjectReference::from_meta(&event.new.meta, event.new.kind);
            let (matched, unmatched) = self.partition_dependents_by_identity(n, &deleted);
            proof {
                lemma_filter_below(
                    g0.nodes[n as int].dependents,
                    g0.matches(deleted),
                    g0.nodes.len(),
                );
                lemma_filter_below(
                    g0.nodes[n as int].dependents,
                    g0.mismatches(deleted),
                    g0.nodes.len(),
                );
            }
            if self.nodes[n].is_virtual() {
                if unmatched.len() > 0 {
                    if matched.len() > 0 {
                        self.absent_owner_cache.put(&deleted);
                        self.queue_all(&matched);
                    }
                    let ghost g1 = self@;
                    if self.nodes[n].identity().same(&deleted) {
                        let other = unmatched[0];
                        assert(g1.nodes[other as int].owners == self.nodes@[other as int].owners@);
                        let found: Option<u128> = match find_uid(
                            &self.nodes[other].owners,
                            deleted.uid,
                        ) {
                            Some(o) => Some(o.uid),
                            None => None,
                        };
                        match found {
                            Some(uid) => {
                                let copy = self.nodes[n].copy();
                                let at = self.nodes.len();
                                self.nodes.push(copy);
                                self.uid_to_node_table.insert(uid, at);
                                self.attempt_to_delete.push(at);
                                proof {
                                    let g2 = g1.new_node(uid, g1.nodes[n as int]).push_delete(
                                        g1.nodes.len() as usize,
                                    );
                                    assert(self@.nodes =~= g2.nodes);
                                    assert(self@ == g2);
                                    lemma_first_with_uid(
                                        g1.nodes[other as int].owners,
                                        deleted.uid,
                                        0,
                                    );
                                    assert forall|i: int| 0 <= i < g2.nodes.len() implies all_below(
                                        (#[trigger] g2.nodes[i]).dependents,
                                        g2.nodes.len(),
                                    ) by {
                                        if i < g0.nodes.len() {
                                            assert(all_below(
                                                g0.nodes[i].dependents,
                                                g0.nodes.len(),
                                            ));
                                        }
                                    }
                                }
                            },
                            None => {},
                        }
                    }
                    return;
                }
            } else if !self.nodes[n].identity().same(&deleted) {
                if matched.len() > 0 {
                    self.absent_owner_cache.put(&deleted);
                    self.queue_all(&matched);
                }
                return;
            }
        }
        self.remove_node(n, event);
    }

    /// Brings the graph up to date with one event and queues what the event calls for.
    pub fn process_graph_change(&mut self, event: &GraphEvent)
        requires
            old(self)@.wf(),
            old(self)@.nodes.len() + types::owners_of(event.new.meta).len() + 1 < usize::MAX,
        ensures
            final(self)@ == old(self)@.step(*event),
            final(self)@.wf(),
    {
        match self.uid_to_node_table.get(&event.new.meta.uid) {
            Some(n) => {
                assert(self@.table.contains_key(event.new.meta.uid));
                self.observe_node(event, n);
                match event.kind {
                    GraphChangeEventKind::Delete => self.delete_node(n, event),
                    _ => self.update_node(n, event),
                }
            },
            None => {
                match event.kind {
                    GraphChangeEventKind::Delete => {},
                    _ => self.add_node(event),
                }
            },
        }
    }
}

/// Whether one of the owner references names the identity.
fn names_object(owners: &Vec<OwnerReference>, id: &ObjectReference) -> (r: bool)
    ensures
        r == names_identity(owners@, *id),
{
    for i in 0..owners.len()
        invariant
            forall|j: int|
                0 <= j < i ==> !((#[trigger] owners@[j]).uid == id.uid && owners@[j].name@ == id.name@
                    && owners@[j].kind == id.kind),
    {
        if owners[i].uid == id.uid && str_eq(owners[i].name.as_str(), id.name.as_str())
            && owners[i].kind == id.kind {
            return true;
        }
    }
    false
}

proof fn lemma_link_keeps(g: GraphView, node: usize, o: OwnerReference, u: u128, d: usize)
    requires
        g.wf(),
        node < g.nodes.len(),
        g.nodes.len() < usize::MAX,
        g.table.contains_key(u),
        g.nodes[g.table[u] as int].dependents.contains(d),
    ensures
        g.link(node, o).table.contains_key(u),
        g.link(node, o).table[u] == g.table[u],
        g.link(node, o).nodes[g.table[u] as int].dependents.contains(d),
{
    let a = g.nodes[g.table[u] as int].dependents;
    let b = g.link(node, o).nodes[g.table[u] as int].dependents;
    let i = choose|i: int| 0 <= i < a.len() && a[i] == d;
    assert(b[i] == d);
}

/// Every owner that a node is linked to is found in the table and lists the node among its
/// dependents.
pub proof fn law_linked_owners_list_the_dependent(
    g: GraphView,
    node: usize,
    owners: Seq<OwnerReference>,
    n: int,
)
    requires
        g.wf(),
        node < g.nodes.len(),
        0 <= n <= owners.len(),
        g.nodes.len() + n < usize::MAX,
    ensures
        g.link_all(node, owners, n).wf(),
        g.nodes.len() <= g.link_all(node, owners, n).nodes.len() <= g.nodes.len() + n,
        forall|i: int|
            0 <= i < n ==> {
                let h = g.link_all(node, owners, n);
                let u = (#[trigger] owners[i]).uid;
                h.table.contains_key(u) && h.nodes[h.table[u] as int].dependents.contains(node)
            },
    decreases n,
{
    if n > 0 {
        law_linked_owners_list_the_dependent(g, node, owners, n - 1);
        let a = g.link_all(node, owners, n - 1);
        let h = g.link_all(node, owners, n);
        lemma_link_wf(a, node, owners[n - 1]);
        assert forall|i: int| 0 <= i < n implies {
            let u = (#[trigger] owners[i]).uid;
            h.table.contains_key(u) && h.nodes[h.table[u] as int].dependents.contains(node)
        } by {
            let u = owners[i].uid;
            if i < n - 1 {
                lemma_link_keeps(a, node, owners[n - 1], u, node);
            } else {
                let deps = h.nodes[h.table[u] as int].dependents;
                assert(deps[deps.len() - 1] == node);
            }
        }
    }
}

/// An owner that is already known is linked without queueing anything; an unknown one gets
/// exactly one virtual node, which is queued once.
pub proof fn law_unknown_owner_is_queued_once(g: GraphView, node: usize, o: OwnerReference)
    requires
        g.wf(),
        node < g.nodes.len(),
        g.nodes.len() < usize::MAX,
    ensures
        g.table.contains_key(o.uid) ==> g.link(node, o).deletes == g.deletes && g.link(
            node,
            o,
        ).nodes.len() == g.nodes.len(),
        !g.table.contains_key(o.uid) ==> {
            let h = g.link(node, o);
            &&& h.deletes == g.deletes.push(g.nodes.len() as usize)
            &&& h.nodes.len() == g.nodes.len() + 1
            &&& h.table[o.uid] == g.nodes.len()
            &&& h.nodes[g.nodes.len() as int].is_virtual
            &&& h.nodes[g.nodes.len() as int].identity.uid == o.uid
        },
{
}

/// After unlinking, neither side knows of the other: the owner does not list the node and
/// the node does not name the owner.
pub proof fn law_unlink_undoes_link(g: GraphView, node: usize, o: OwnerReference)
    requires
        g.wf(),
        node < g.nodes.len(),
        g.nodes.len() < usize::MAX,
    ensures
        ({
            let h = g.link(node, o).unlink(node, o);
            &&& h.table.contains_key(o.uid)
            &&& !h.nodes[h.table[o.uid] as int].dependents.contains(node)
            &&& !has_uid(h.nodes[node as int].owners, o.uid)
        }),
{
    lemma_link_wf(g, node, o);
    let a = g.link(node, o);
    let h = a.unlink(node, o);
    let owner = a.table[o.uid];
    let deps = a.nodes[owner as int].dependents;
    seqs::lemma_filter_members(deps, graph::not_node(node));
    let mid = a.set_node(
        owner,
        NodeView { dependents: deps.filter(graph::not_node(node)), ..a.nodes[owner as int] },
    );
    seqs::lemma_filter_members(mid.nodes[node as int].owners, not_uid(o.uid));
    assert forall|i: int| 0 <= i < h.nodes[node as int].owners.len() implies (
    #[trigger] h.nodes[node as int].owners[i]).uid != o.uid by {
        assert(not_uid(o.uid)(h.nodes[node as int].owners[i]));
    }
}

/// The three parts of the difference account for every reference: a new one is added or was
/// there before, an old one is removed or still there, and nothing is both.
pub proof fn law_reference_difference_is_a_partition(
    old_owners: Seq<OwnerReference>,
    new_owners: Seq<OwnerReference>,
)
    ensures
        forall|o: OwnerReference| #[trigger]
            new_owners.contains(o) ==> (new_owners.filter(missing_from(old_owners)).contains(o)
                <==> !has_uid(old_owners, o.uid)),
        forall|o: OwnerReference| #[trigger]
            old_owners.contains(o) ==> (old_owners.filter(missing_from(new_owners)).contains(o)
                <==> !has_uid(new_owners, o.uid)),
        forall|o: OwnerReference| #[trigger]
            new_owners.filter(missing_from(old_owners)).contains(o) ==> !old_owners.filter(
                missing_from(new_owners),
            ).contains(o),
{
    seqs::lemma_filter_members(new_owners, missing_from(old_owners));
    seqs::lemma_filter_members(old_owners, missing_from(new_owners));
    assert forall|o: OwnerReference| #[trigger]
        new_owners.filter(missing_from(old_owners)).contains(o) implies !old_owners.filter(
        missing_from(new_owners),
    ).contains(o) by {
        assert(new_owners.contains(o));
        let i = choose|i: int| 0 <= i < new_owners.len() && new_owners[i] == o;
        assert(new_owners[i].uid == o.uid);
        assert(has_uid(new_owners, o.uid));
    }
}

/// Where no two references of a list are to one owner, a pair stands for a changed reference
/// exactly when its two sides are an old and a new reference to one owner that differ in the flag.
proof fn lemma_changed_pairs(a: Seq<OwnerReference>, b: Seq<OwnerReference>, n: int)
    requires
        distinct_owners(a),
        distinct_owners(b),
        0 <= n <= b.len(),
    ensures
        forall|x: OwnerReference, y: OwnerReference| #[trigger]
            changed_pairs(a, b, n).contains((x, y)) <==> a.contains(x) && b.take(n).contains(y)
                && x.uid == y.uid && x.block_owner_deletion != y.block_owner_deletion,
        changed_pairs(a, b, n).no_duplicates(),
    decreases n,
{
    if n <= 0 {
        assert(b.take(n).len() == 0);
    } else {
        lemma_changed_pairs(a, b, n - 1);
        let rest = changed_pairs(a, b, n - 1);
        let all = changed_pairs(a, b, n);
        let last = b[n - 1];
        let found = first_with_uid(a, last.uid, 0);
        lemma_first_with_uid(a, last.uid, 0);
        assert(b.take(n) =~= b.take(n - 1).push(last));
        assert(!b.take(n - 1).contains(last)) by {
            if b.take(n - 1).contains(last) {
                let t = b.take(n - 1);
                let j = choose|j: int| 0 <= j < t.len() && t[j] == last;
                assert(b[j].uid == b[n - 1].uid);
            }
        }
        assert forall|x: OwnerReference, y: OwnerReference| #[trigger]
            all.contains((x, y)) <==> a.contains(x) && b.take(n).contains(y) && x.uid == y.uid
                && x.block_owner_deletion != y.block_owner_deletion by {
            lemma_push_contains(b.take(n - 1), last, y);
            if let Some(o) = found {
                lemma_push_contains(rest, (o, last), (x, y));
            }
            if a.contains(x) && y == last && x.uid == last.uid {
                let k = choose|k: int| 0 <= k < a.len() && a[k] == x;
                assert(a[k].uid == last.uid);
                let o = found->0;
                let m = choose|m: int| 0 <= m < a.len() && a[m] == o;
                if k < m {
                    assert(a[k].uid != a[m].uid);
                } else if m < k {
                    assert(a[m].uid != a[k].uid);
                }
                assert(o == x);
            }
        }
        assert(all.no_duplicates()) by {
            if let Some(o) = found {
                assert(!rest.contains((o, last)));
            }
        }
    }
}

proof fn lemma_push_contains<A>(s: Seq<A>, x: A, y: A)
    ensures
        s.push(x).contains(y) <==> s.contains(y) || x == y,
{
    if s.contains(y) {
        let i = choose|i: int| 0 <= i < s.len() && s[i] == y;
        assert(s.push(x)[i] == y);
    }
    assert(s.push(x)[s.len() as int] == x);
}

/// Swapping the two lists swaps the added and the removed references, and the two sides of every
/// changed one, up to the order of those.
pub proof fn law_swapped_lists_swap_the_difference(a: Seq<OwnerReference>, b: Seq<OwnerReference>)
    requires
        distinct_owners(a),
        distinct_owners(b),
    ensures
        ({
            let d = reference_difference(a, b);
            let e = reference_difference(b, a);
            &&& e.0 == d.1
            &&& e.1 == d.0
            &&& e.2.to_multiset() == d.2.map_values(
                |p: (OwnerReference, OwnerReference)| swapped(p),
            ).to_multiset()
        }),
{
    broadcast use vstd::seq_lib::group_to_multiset_ensures;

    let d = reference_difference(a, b).2;
    let e = reference_difference(b, a).2;
    let s = d.map_values(|p: (OwnerReference, OwnerReference)| swapped(p));
    lemma_changed_pairs(a, b, b.len() as int);
    lemma_changed_pairs(b, a, a.len() as int);
    assert(a.take(a.len() as int) =~= a);
    assert(b.take(b.len() as int) =~= b);
    assert(s.no_duplicates()) by {
        assert forall|i: int, j: int| 0 <= i < s.len() && 0 <= j < s.len() && i != j implies s[i]
            != s[j] by {
            assert(d[i] != d[j]);
            assert(s[i] == swapped(d[i]) && s[j] == swapped(d[j]));
        }
    }
    assert forall|p: (OwnerReference, OwnerReference)| #[trigger]
        s.contains(p) <==> e.contains(p) by {
        assert(e.contains((p.0, p.1)) <==> d.contains((p.1, p.0)));
        if s.contains(p) {
            let i = choose|i: int| 0 <= i < s.len() && s[i] == p;
            assert(d[i] == (p.1, p.0));
            assert(d.contains((p.1, p.0)));
        }
        if d.contains((p.1, p.0)) {
            let i = choose|i: int| 0 <= i < d.len() && d[i] == (p.1, p.0);
            assert(s[i] == p);
        }
    }
    s.lemma_multiset_has_no_duplicates();
    e.lemma_multiset_has_no_duplicates();
    assert forall|p: (OwnerReference, OwnerReference)| s.to_multiset().count(p)
        == e.to_multiset().count(p) by {
        assert(s.contains(p) <==> e.contains(p));
        assert(s.contains(p) <==> s.to_multiset().count(p) > 0);
        assert(e.contains(p) <==> e.to_multiset().count(p) > 0);
        assert(s.to_multiset().contains(p) ==> s.to_multiset().count(p) == 1);
        assert(e.to_multiset().contains(p) ==> e.to_multiset().count(p) == 1);
    }
    assert(e.to_multiset() =~= s.to_multiset());
}

/// References do not differ from themselves.
pub proof fn law_same_references_do_not_differ(a: Seq<OwnerReference>)
    requires
        distinct_owners(a),
    ensures
        reference_difference(a, a) == (
            Seq::<OwnerReference>::empty(),
            Seq::<OwnerReference>::empty(),
            Seq::<(OwnerReference, OwnerReference)>::empty(),
        ),
{
    let d = reference_difference(a, a);
    seqs::lemma_filter_members(a, missing_from(a));
    if d.0.len() > 0 {
        assert(d.0.contains(d.0[0]));
        let i = choose|i: int| 0 <= i < a.len() && a[i] == d.0[0];
        assert(a[i].uid == d.0[0].uid);
        assert(has_uid(a, d.0[0].uid));
        assert(missing_from(a)(d.0[0]));
    }
    assert(d.0 =~= Seq::<OwnerReference>::empty());
    lemma_changed_pairs(a, a, a.len() as int);
    if d.2.len() > 0 {
        let p = d.2[0];
        assert(d.2.contains((p.0, p.1)));
        let i = choose|i: int| 0 <= i < a.len() && a[i] == p.0;
        assert(a.take(a.len() as int) =~= a);
        let j = choose|j: int| 0 <= j < a.len() && a[j] == p.1;
        if i < j {
            assert(a[i].uid != a[j].uid);
        } else if j < i {
            assert(a[j].uid != a[i].uid);
        }
    }
    assert(d.2 =~= Seq::<(OwnerReference, OwnerReference)>::empty());
}

/// An owner that both lists refer to is changed exactly when the blocking flag differs, whatever
/// else of the references does.
pub proof fn law_only_the_flag_changes_a_reference(
    a: Seq<OwnerReference>,
    b: Seq<OwnerReference>,
    i: int,
    j: int,
)
    requires
        distinct_owners(a),
        distinct_owners(b),
        0 <= i < a.len(),
        0 <= j < b.len(),
        a[i].uid == b[j].uid,
    ensures
        reference_difference(a, b).2.contains((a[i], b[j])) <==> a[i].block_owner_deletion
            != b[j].block_owner_deletion,
        !reference_difference(a, b).0.contains(b[j]),
        !reference_difference(a, b).1.contains(a[i]),
{
    lemma_changed_pairs(a, b, b.len() as int);
    assert(b.take(b.len() as int) =~= b);
    assert(a.contains(a[i]) && b.contains(b[j]));
    seqs::lemma_filter_members(b, missing_from(a));
    seqs::lemma_filter_members(a, missing_from(b));
    assert(has_uid(a, b[j].uid));
    assert(has_uid(b, a[i].uid));
}

/// The added references keep the order of the new list, and the removed ones that of the old list.
pub proof fn law_reference_difference_keeps_the_order(
    a: Seq<OwnerReference>,
    b: Seq<OwnerReference>,
)
    ensures
        seqs::is_subsequence(reference_difference(a, b).0, b),
        seqs::is_subsequence(reference_difference(a, b).1, a),
{
    seqs::lemma_filter_subsequence(b, missing_from(a));
    seqs::lemma_filter_subsequence(a, missing_from(b));
}

proof fn lemma_unlink_all_keeps(
    g: GraphView,
    node: usize,
    owners: Seq<OwnerReference>,
    n: int,
    m: int,
    d: usize,
)
    requires
        g.wf(),
        node < g.nodes.len(),
        0 <= n <= owners.len(),
        0 <= m < g.nodes.len(),
        d != node,
        g.nodes[m].dependents.contains(d),
    ensures
        g.unlink_all(node, owners, n).wf(),
        g.unlink_all(node, owners, n).nodes.len() == g.nodes.len(),
        g.unlink_all(node, owners, n).table == g.table,
        g.unlink_all(node, owners, n).deletes == g.deletes,
        g.unlink_all(node, owners, n).nodes[m].dependents.contains(d),
    decreases n,
{
    if n > 0 {
        lemma_unlink_all_keeps(g, node, owners, n - 1, m, d);
        let a = g.unlink_all(node, owners, n - 1);
        lemma_unlink_wf(a, node, owners[n - 1]);
        seqs::lemma_filter_members(a.nodes[m].dependents, graph::not_node(node));
        assert(graph::not_node(node)(d));
    }
}

/// An object that was really deleted leaves the table, and every object that depended on it
/// is queued for a deletion attempt.
pub proof fn law_dependents_of_a_deleted_object_are_queued(g: GraphView, e: GraphEvent, d: usize)
    requires
        g.wf(),
        g.nodes.len() < usize::MAX,
        e.kind == GraphChangeEventKind::Delete,
        !e.is_virtual,
        g.table.contains_key(e.new.meta.uid),
        d != g.table[e.new.meta.uid],
        g.nodes[g.table[e.new.meta.uid] as int].dependents.contains(d),
    ensures
        !g.step(e).table.contains_key(e.new.meta.uid),
        g.step(e).deletes.contains(d),
{
    let n = g.table[e.new.meta.uid];
    let seen = ObjectReference::of_meta(e.new.meta, e.new.kind);
    let a = g.observe(e, n);
    let deps0 = g.nodes[n as int].dependents;
    lemma_filter_below(deps0, g.mismatches(seen), g.nodes.len());
    assert(all_below(deps0, g.nodes.len()));
    assert(a.nodes[n as int].dependents == deps0);
    assert(a.wf()) by {
        assert forall|i: int| 0 <= i < a.nodes.len() implies all_below(
            (#[trigger] a.nodes[i]).dependents,
            a.nodes.len(),
        ) by {
            if i < g.nodes.len() {
                assert(all_below(g.nodes[i].dependents, g.nodes.len()));
            }
        }
    }
    let b = GraphView { table: a.table.remove(e.new.meta.uid), ..a };
    assert(b.wf()) by {
        assert forall|u: u128| #[trigger] b.table.contains_key(u) implies b.table[u]
            < b.nodes.len() by {
            assert(a.table.contains_key(u));
        }
        assert forall|i: int| 0 <= i < b.nodes.len() implies all_below(
            (#[trigger] b.nodes[i]).dependents,
            b.nodes.len(),
        ) by {
            assert(all_below(a.nodes[i].dependents, a.nodes.len()));
        }
    }
    let owners = b.nodes[n as int].owners;
    lemma_unlink_all_keeps(b, n, owners, owners.len() as int, n as int, d);
    let c = b.unlink_all(n, owners, owners.len() as int);
    let deps = c.nodes[n as int].dependents;
    let i = choose|i: int| 0 <= i < deps.len() && deps[i] == d;
    let out = g.step(e).deletes;
    assert(out[c.deletes.len() + i] == d);
}

/// When a foreground deletion starts, the object and all its dependents are queued, and the
/// object is marked as waiting for them.
pub proof fn law_foreground_deletion_queues_dependents_first(
    g: GraphView,
    node: usize,
    old_meta: Option<ObjectMeta>,
    new_meta: ObjectMeta,
)
    requires
        g.wf(),
        node < g.nodes.len(),
        deletion_starts(old_meta, new_meta, Finalizer::DeletingDependents),
        !deletion_starts(old_meta, new_meta, Finalizer::OrphanDependents),
    ensures
        ({
            let h = g.transition(node, old_meta, new_meta);
            &&& h.nodes[node as int].deleting_dependents
            &&& h.deletes == g.deletes + g.nodes[node as int].dependents + seq![node]
            &&& h.orphans == g.orphans
        }),
{
    let h = g.transition(node, old_meta, new_meta);
    assert(h.deletes =~= g.deletes + g.nodes[node as int].dependents + seq![node]);
}

/// When an orphaning deletion starts, the object is queued for orphaning and nothing else.
pub proof fn law_orphan_deletion_queues_the_object_only(
    g: GraphView,
    node: usize,
    old_meta: Option<ObjectMeta>,
    new_meta: ObjectMeta,
)
    requires
        deletion_starts(old_meta, new_meta, Finalizer::OrphanDependents),
    ensures
        g.transition(node, old_meta, new_meta) == (GraphView {
            orphans: g.orphans.push(node),
            ..g
        }),
{
}

/// What unlinking leaves alone: the table, the queues, and everything about the nodes but who
/// depends on whom. No new dependents appear.
proof fn lemma_unlink_all_frame(g: GraphView, node: usize, owners: Seq<OwnerReference>, n: int)
    requires
        g.wf(),
        node < g.nodes.len(),
        0 <= n <= owners.len(),
    ensures
        ({
            let h = g.unlink_all(node, owners, n);
            &&& h.wf()
            &&& h.nodes.len() == g.nodes.len()
            &&& h.table == g.table
            &&& h.deletes == g.deletes
            &&& h.orphans == g.orphans
            &&& h.absent == g.absent
            &&& h.limit == g.limit
            &&& forall|m: int|
                0 <= m < g.nodes.len() ==> (#[trigger] h.nodes[m]).deleting_dependents
                    == g.nodes[m].deleting_dependents
            &&& forall|m: int, d: usize|
                0 <= m < g.nodes.len() && #[trigger] h.nodes[m].dependents.contains(d)
                    ==> g.nodes[m].dependents.contains(d)
            &&& forall|m: int, d: usize|
                0 <= m < g.nodes.len() && d != node && #[trigger] g.nodes[m].dependents.contains(d)
                    ==> h.nodes[m].dependents.contains(d)
            &&& forall|i: int|
                0 <= i < n && g.table.contains_key((#[trigger] owners[i]).uid)
                    ==> !h.nodes[g.table[owners[i].uid] as int].dependents.contains(node)
        }),
    decreases n,
{
    if n > 0 {
        lemma_unlink_all_frame(g, node, owners, n - 1);
        let a = g.unlink_all(node, owners, n - 1);
        let h = g.unlink_all(node, owners, n);
        lemma_unlink_wf(a, node, owners[n - 1]);
        let p = graph::not_node(node);
        assert forall|m: int, d: usize|
            0 <= m < g.nodes.len() && #[trigger] h.nodes[m].dependents.contains(d) implies g.nodes[m].dependents.contains(d) by {
            seqs::lemma_filter_members(a.nodes[m].dependents, p);
            assert(a.nodes[m].dependents.contains(d));
        }
        assert forall|m: int, d: usize|
            0 <= m < g.nodes.len() && d != node && #[trigger] g.nodes[m].dependents.contains(d) implies h.nodes[m].dependents.contains(d) by {
            seqs::lemma_filter_members(a.nodes[m].dependents, p);
            assert(a.nodes[m].dependents.contains(d));
        }
        assert forall|i: int| 0 <= i < n && g.table.contains_key((#[trigger] owners[i]).uid) implies !h.nodes[g.table[owners[i].uid] as int].dependents.contains(
        node) by {
            let m = g.table[owners[i].uid] as int;
            seqs::lemma_filter_members(a.nodes[m].dependents, p);
            if i < n - 1 {
                assert(!a.nodes[m].dependents.contains(node));
            }
        }
    }
}

proof fn lemma_waiting_owners(g: GraphView, owners: Seq<OwnerReference>, n: int)
    requires
        0 <= n <= owners.len(),
    ensures
        forall|i: int|
            0 <= i < n && g.table.contains_key((#[trigger] owners[i]).uid)
                && g.nodes[g.table[owners[i].uid] as int].deleting_dependents ==> g.waiting_owners(
                owners,
                n,
            ).contains(g.table[owners[i].uid]),
        forall|x: usize| #[trigger]
            g.waiting_owners(owners, n).contains(x) ==> exists|i: int|
                0 <= i < n && g.table.contains_key((#[trigger] owners[i]).uid)
                    && g.table[owners[i].uid] == x && g.nodes[x as int].deleting_dependents,
    decreases n,
{
    if n > 0 {
        lemma_waiting_owners(g, owners, n - 1);
        let a = g.waiting_owners(owners, n - 1);
        let b = g.waiting_owners(owners, n);
        assert forall|x: usize| a.contains(x) implies #[trigger] b.contains(x) by {
            let k = choose|k: int| 0 <= k < a.len() && a[k] == x;
            assert(b[k] == x);
        }
        let u = owners[n - 1].uid;
        if g.table.contains_key(u) && g.nodes[g.table[u] as int].deleting_dependents {
            assert(b[b.len() - 1] == g.table[u]);
        }
        assert forall|x: usize| #[trigger] b.contains(x) implies exists|i: int|
            0 <= i < n && g.table.contains_key((#[trigger] owners[i]).uid) && g.table[owners[i].uid]
                == x && g.nodes[x as int].deleting_dependents by {
            let k = choose|k: int| 0 <= k < b.len() && b[k] == x;
            if k < a.len() {
                assert(a[k] == x);
                assert(a.contains(x));
                let i = choose|i: int|
                    0 <= i < n - 1 && g.table.contains_key((#[trigger] owners[i]).uid)
                        && g.table[owners[i].uid] == x && g.nodes[x as int].deleting_dependents;
                assert(g.table.contains_key(owners[i].uid));
            } else {
                assert(g.table.contains_key(owners[n - 1].uid));
            }
        }
    }
}

/// When a known object leaves the graph, the deletion queue grows at its end by the nodes that
/// depended on it and by those of its owners that wait for their dependents to be deleted: each of
/// these is tried again, so that its own deletion can end. No other owner is queued for having
/// been one. The object is no dependent of its owners any more, and the owners keep waiting or
/// not, as before.
pub proof fn law_waiting_owners_are_tried_again(g: &mut GraphBuilder, e: GraphEvent)
    requires
        call_ensures(GraphBuilder::process_graph_change, (g, &e), ()),
        old(g)@.wf(),
        old(g)@.nodes.len() < usize::MAX,
        e.kind == GraphChangeEventKind::Delete,
        old(g)@.table.contains_key(e.new.meta.uid),
        !final(g)@.table.contains_key(e.new.meta.uid),
    ensures
        ({
            let before = old(g)@;
            let after = final(g)@;
            let uid = e.new.meta.uid;
            let n = before.table[uid];
            let owners = before.nodes[n as int].owners;
            let deps = before.nodes[n as int].dependents;
            let new = after.deletes.skip(before.deletes.len() as int);
            &&& after.deletes == before.deletes + new
            &&& after.orphans == before.orphans
            &&& after.table == before.table.remove(uid)
            &&& forall|d: usize| d != n && #[trigger] deps.contains(d) ==> new.contains(d)
            &&& forall|i: int|
                0 <= i < owners.len() && (#[trigger] owners[i]).uid != uid
                    && before.table.contains_key(owners[i].uid)
                    && before.nodes[before.table[owners[i].uid] as int].deleting_dependents
                    ==> new.contains(before.table[owners[i].uid])
            &&& forall|x: usize| #[trigger]
                new.contains(x) ==> deps.contains(x) || exists|i: int|
                    0 <= i < owners.len() && (#[trigger] owners[i]).uid != uid
                        && before.table.contains_key(owners[i].uid) && before.table[owners[i].uid]
                        == x && before.nodes[x as int].deleting_dependents
            &&& forall|i: int|
                0 <= i < owners.len() && (#[trigger] owners[i]).uid != uid
                    && before.table.contains_key(owners[i].uid) ==> {
                    let o = before.table[owners[i].uid] as int;
                    &&& !after.nodes[o].dependents.contains(n)
                    &&& after.nodes[o].deleting_dependents == before.nodes[o].deleting_dependents
                }
        }),
{
    lemma_removal(old(g)@, e);
}

#[verifier::spinoff_prover]
#[verifier::rlimit(80)]
proof fn lemma_removal(g: GraphView, e: GraphEvent)
    requires
        g.wf(),
        g.nodes.len() < usize::MAX,
        e.kind == GraphChangeEventKind::Delete,
        g.table.contains_key(e.new.meta.uid),
        !g.step(e).table.contains_key(e.new.meta.uid),
    ensures
        ({
            let after = g.step(e);
            let uid = e.new.meta.uid;
            let n = g.table[uid];
            let owners = g.nodes[n as int].owners;
            let deps = g.nodes[n as int].dependents;
            let new = after.deletes.skip(g.deletes.len() as int);
            &&& after.deletes == g.deletes + new
            &&& after.orphans == g.orphans
            &&& after.table == g.table.remove(uid)
            &&& forall|d: usize| d != n && #[trigger] deps.contains(d) ==> new.contains(d)
            &&& forall|i: int|
                0 <= i < owners.len() && (#[trigger] owners[i]).uid != uid && g.table.contains_key(
                    owners[i].uid,
                ) && g.nodes[g.table[owners[i].uid] as int].deleting_dependents ==> new.contains(
                    g.table[owners[i].uid],
                )
            &&& forall|x: usize| #[trigger]
                new.contains(x) ==> deps.contains(x) || exists|i: int|
                    0 <= i < owners.len() && (#[trigger] owners[i]).uid != uid
                        && g.table.contains_key(owners[i].uid) && g.table[owners[i].uid] == x
                        && g.nodes[x as int].deleting_dependents
            &&& forall|i: int|
                0 <= i < owners.len() && (#[trigger] owners[i]).uid != uid && g.table.contains_key(
                    owners[i].uid,
                ) ==> {
                    let o = g.table[owners[i].uid] as int;
                    &&& !after.nodes[o].dependents.contains(n)
                    &&& after.nodes[o].deleting_dependents == g.nodes[o].deleting_dependents
                }
        }),
{
    let uid = e.new.meta.uid;
    let n = g.table[uid];
    let seen = ObjectReference::of_meta(e.new.meta, e.new.kind);
    let a = g.observe(e, n);
    let deps0 = g.nodes[n as int].dependents;
    let owners = g.nodes[n as int].owners;
    lemma_filter_below(deps0, g.mismatches(seen), g.nodes.len());
    seqs::lemma_filter_members(deps0, g.mismatches(seen));
    assert(all_below(deps0, g.nodes.len()));
    assert(a.nodes[n as int].dependents == deps0);
    assert(a.nodes[n as int].owners == owners);
    let early = if a.deletes.len() == g.deletes.len() {
        Seq::<usize>::empty()
    } else {
        deps0.filter(g.mismatches(seen))
    };
    assert(a.deletes =~= g.deletes + early) by {
        if !e.is_virtual && g.nodes[n as int].is_virtual && seen@ != g.nodes[n as int].identity@ {
            let f = deps0.filter(g.mismatches(seen));
            assert(a.deletes =~= g.deletes + f);
            if f.len() == 0 {
                assert(f =~= Seq::<usize>::empty());
            }
        }
    }
    assert(forall|m: int| 0 <= m < g.nodes.len() ==> (#[trigger] a.nodes[m]).deleting_dependents
        == g.nodes[m].deleting_dependents);
    let b = GraphView { table: a.table.remove(uid), ..a };
    assert(b.table =~= g.table.remove(uid));
    assert(b.wf()) by {
        assert forall|u: u128| #[trigger] b.table.contains_key(u) implies b.table[u]
            < b.nodes.len() && b.nodes[b.table[u] as int].identity.uid == u by {
            assert(g.table.contains_key(u));
        }
        assert forall|i: int| 0 <= i < b.nodes.len() implies all_below(
            (#[trigger] b.nodes[i]).dependents,
            b.nodes.len(),
        ) by {
            if i < g.nodes.len() {
                assert(all_below(g.nodes[i].dependents, g.nodes.len()));
            }
        }
    }
    lemma_unlink_all_frame(b, n, owners, owners.len() as int);
    let c = b.unlink_all(n, owners, owners.len() as int);
    let deps = c.nodes[n as int].dependents;
    let d = if deps.len() > 0 {
        c.record_absent(seen)
    } else {
        c
    };
    let q = d.push_deletes(deps);
    lemma_waiting_owners(q, owners, owners.len() as int);
    let w = q.waiting_owners(owners, owners.len() as int);
    let after = g.step(e);
    assert(after == a.deleted(n, e));
    assert(a.table.contains_key(uid));
    assert(a.deleted(n, e) == a.removed(n, e));
    assert(after == q.push_deletes(w));
    let new = after.deletes.skip(g.deletes.len() as int);
    assert(after.deletes =~= g.deletes + early + deps + w);
    assert(new =~= early + deps + w);
    assert forall|x: usize| listed(deps, x) implies #[trigger] new.contains(x) by {
        let i = choose|i: int| 0 <= i < deps.len() && deps[i] == x;
        assert(new[early.len() + i] == x);
    }
    assert forall|x: usize| listed(w, x) implies #[trigger] new.contains(x) by {
        let i = choose|i: int| 0 <= i < w.len() && w[i] == x;
        assert(new[early.len() + deps.len() + i] == x);
    }
    assert forall|x: usize| x != n && #[trigger] deps0.contains(x) implies new.contains(x) by {
        assert(b.nodes[n as int].dependents.contains(x));
        assert(listed(deps, x));
    }
    assert forall|i: int|
        0 <= i < owners.len() && (#[trigger] owners[i]).uid != uid && g.table.contains_key(
            owners[i].uid,
        ) && g.nodes[g.table[owners[i].uid] as int].deleting_dependents implies new.contains(
    g.table[owners[i].uid]) by {
        let x = g.table[owners[i].uid];
        assert(q.table.contains_key(owners[i].uid));
        assert(q.nodes[x as int].deleting_dependents);
        assert(listed(w, x));
    }
    assert forall|x: usize| #[trigger] new.contains(x) implies deps0.contains(x) || exists|i: int|
        0 <= i < owners.len() && (#[trigger] owners[i]).uid != uid && g.table.contains_key(
            owners[i].uid,
        ) && g.table[owners[i].uid] == x && g.nodes[x as int].deleting_dependents by {
        let k = choose|k: int| 0 <= k < new.len() && new[k] == x;
        if k < early.len() {
            assert(early.contains(x));
        } else if k < early.len() + deps.len() {
            assert(deps[k - early.len()] == x);
            assert(c.nodes[n as int].dependents.contains(x));
            assert(b.nodes[n as int].dependents.contains(x));
        } else {
            assert(w[k - early.len() - deps.len()] == x);
            assert(w.contains(x));
            let i = choose|i: int|
                0 <= i < owners.len() && q.table.contains_key((#[trigger] owners[i]).uid)
                    && q.table[owners[i].uid] == x && q.nodes[x as int].deleting_dependents;
            assert(owners[i].uid != uid && g.table.contains_key(owners[i].uid));
            assert(x < g.nodes.len());
        }
    }
}

/// Whether a value is in the list.
spec fn listed(s: Seq<usize>, x: usize) -> bool {
    s.contains(x)
}

/// Whether one of the owner references is to the object with the identifier, the name and the kind.
pub open spec fn refers_to(
    owners: Seq<OwnerReference>,
    uid: u128,
    name: Seq<char>,
    kind: ResourceKind,
) -> bool {
    exists|i: int|
        0 <= i < owners.len() && (#[trigger] owners[i]).uid == uid && owners[i].name@ == name
            && owners[i].kind == kind
}

/// A known object leaves the table when its deletion was observed, and also when the collector
/// finds it missing, unless the deleted identity is not the one that the node stands for: that of
/// an observed object, or the one under which every dependent of a merely named object knows it.
pub proof fn law_deleted_object_leaves_the_table(g: &mut GraphBuilder, e: GraphEvent)
    requires
        call_ensures(GraphBuilder::process_graph_change, (g, &e), ()),
        old(g)@.wf(),
        old(g)@.nodes.len() < usize::MAX,
        e.kind == GraphChangeEventKind::Delete,
        old(g)@.table.contains_key(e.new.meta.uid),
        ({
            let v = old(g)@.nodes[old(g)@.table[e.new.meta.uid] as int];
            ||| !e.is_virtual
            ||| !v.is_virtual && v.identity.kind == e.new.kind && v.identity.name@
                == e.new.meta.name@ && v.identity.uid == e.new.meta.uid && v.identity.namespace@
                == e.new.meta.namespace@ && v.identity@ == ObjectReference::of_meta(
                e.new.meta,
                e.new.kind,
            )@
            ||| v.is_virtual && forall|k: int|
                0 <= k < v.dependents.len() ==> refers_to(
                    old(g)@.nodes[(#[trigger] v.dependents[k]) as int].owners,
                    e.new.meta.uid,
                    e.new.meta.name@,
                    e.new.kind,
                )
        }),
    ensures
        !final(g)@.table.contains_key(e.new.meta.uid),
{
    let b = old(g)@;
    let n = b.table[e.new.meta.uid];
    let v = b.nodes[n as int];
    let id = ObjectReference::of_meta(e.new.meta, e.new.kind);
    let a = b.observe(e, n);
    if e.is_virtual && v.is_virtual {
        seqs::lemma_filter_members(v.dependents, b.mismatches(id));
        let f = v.dependents.filter(b.mismatches(id));
        if f.len() > 0 {
            assert(f.contains(f[0]));
            let k = choose|k: int| 0 <= k < v.dependents.len() && v.dependents[k] == f[0];
            assert(names_identity(b.nodes[v.dependents[k] as int].owners, id));
            assert(b.mismatches(id)(f[0]));
        }
    }
    assert(final(g)@ == a.deleted(n, e));
    assert(a.deleted(n, e) == a.removed(n, e));
    let c = GraphView { table: a.table.remove(e.new.meta.uid), ..a };
    let owners = c.nodes[n as int].owners;
    lemma_unlink_all_table(c, n, owners, owners.len() as int);
}

proof fn lemma_unlink_all_table(g: GraphView, node: usize, owners: Seq<OwnerReference>, n: int)
    ensures
        g.unlink_all(node, owners, n).table == g.table,
    decreases n,
{
    if n > 0 {
        lemma_unlink_all_table(g, node, owners, n - 1);
    }
}

/// Whether a queue ends with further entries.
pub open spec fn extends(longer: Seq<usize>, shorter: Seq<usize>) -> bool {
    longer.len() >= shorter.len() && longer.take(shorter.len() as int) == shorter
}

proof fn lemma_extends_push(longer: Seq<usize>, shorter: Seq<usize>, x: usize)
    requires
        extends(longer, shorter),
    ensures
        extends(longer.push(x), shorter),
        forall|y: usize| #[trigger] longer.contains(y) ==> longer.push(x).contains(y),
        longer.push(x).contains(x),
{
    assert(longer.push(x).take(shorter.len() as int) =~= longer.take(shorter.len() as int));
    assert forall|y: usize| #[trigger] longer.contains(y) implies longer.push(x).contains(y) by {
        let i = choose|i: int| 0 <= i < longer.len() && longer[i] == y;
        assert(longer.push(x)[i] == y);
    }
    assert(longer.push(x)[longer.len() as int] == x);
}

/// What linking to owners does and leaves alone.
proof fn lemma_link_all_frame(g: GraphView, node: usize, owners: Seq<OwnerReference>, n: int)
    requires
        g.wf(),
        node < g.nodes.len(),
        0 <= n <= owners.len(),
        g.nodes.len() + n < usize::MAX,
    ensures
        ({
            let h = g.link_all(node, owners, n);
            &&& h.wf()
            &&& g.nodes.len() <= h.nodes.len() <= g.nodes.len() + n
            &&& h.nodes[node as int].owners == g.nodes[node as int].owners + owners.take(n)
            &&& h.orphans == g.orphans
            &&& extends(h.deletes, g.deletes)
            &&& forall|m: int|
                0 <= m < g.nodes.len() ==> (#[trigger] h.nodes[m]).identity == g.nodes[m].identity
                    && h.nodes[m].is_virtual == g.nodes[m].is_virtual
                    && h.nodes[m].deleting_dependents == g.nodes[m].deleting_dependents
                    && h.nodes[m].being_deleted == g.nodes[m].being_deleted
            &&& forall|u: u128| #[trigger]
                g.table.contains_key(u) ==> h.table.contains_key(u) && h.table[u] == g.table[u]
            &&& forall|i: int|
                0 <= i < n && !g.table.contains_key((#[trigger] owners[i]).uid)
                    ==> h.table.contains_key(owners[i].uid) && h.deletes.contains(
                    h.table[owners[i].uid],
                ) && h.nodes[h.table[owners[i].uid] as int].is_virtual
            &&& forall|x: usize| #[trigger]
                h.deletes.contains(x) ==> g.deletes.contains(x) || x >= g.nodes.len()
        }),
    decreases n,
{
    if n == 0 {
        assert(owners.take(0) =~= Seq::<OwnerReference>::empty());
        assert(g.nodes[node as int].owners + owners.take(0) =~= g.nodes[node as int].owners);
        assert(g.deletes.take(g.deletes.len() as int) =~= g.deletes);
    } else {
        lemma_link_all_frame(g, node, owners, n - 1);
        let a = g.link_all(node, owners, n - 1);
        let o = owners[n - 1];
        let h = g.link_all(node, owners, n);
        lemma_link_wf(a, node, o);
        assert(owners.take(n) =~= owners.take(n - 1).push(o));
        let w = a.with_owner(node, o);
        assert(w.nodes[node as int].owners == a.nodes[node as int].owners);
        assert(h.nodes[node as int].owners =~= a.nodes[node as int].owners.push(o));
        assert(h.nodes[node as int].owners =~= g.nodes[node as int].owners + owners.take(n));
        lemma_extends_push(a.deletes, g.deletes, a.nodes.len() as usize);
        assert(h.deletes == w.deletes);
        assert forall|i: int| 0 <= i < n && !g.table.contains_key((#[trigger] owners[i]).uid) implies h.table.contains_key(
        owners[i].uid) && h.deletes.contains(h.table[owners[i].uid])
            && h.nodes[h.table[owners[i].uid] as int].is_virtual by {
            let u = owners[i].uid;
            if i < n - 1 {
                assert(a.table.contains_key(u));
                assert(a.table[u] < a.nodes.len());
            } else if a.table.contains_key(u) {
                lemma_new_keys_are_owners(g, node, owners, n - 1, u);
                let k = choose|k: int| 0 <= k < n - 1 && (#[trigger] owners[k]).uid == u;
                assert(!g.table.contains_key(owners[k].uid));
            }
        }
        assert forall|x: usize| #[trigger] h.deletes.contains(x) implies g.deletes.contains(x) || x
            >= g.nodes.len() by {
            let k = choose|k: int| 0 <= k < h.deletes.len() && h.deletes[k] == x;
            if k < a.deletes.len() {
                assert(a.deletes[k] == x);
                assert(a.deletes.contains(x));
            }
        }
    }
}

proof fn lemma_new_keys_are_owners(
    g: GraphView,
    node: usize,
    owners: Seq<OwnerReference>,
    n: int,
    u: u128,
)
    requires
        0 <= n <= owners.len(),
        !g.table.contains_key(u),
        g.link_all(node, owners, n).table.contains_key(u),
    ensures
        exists|k: int| 0 <= k < n && (#[trigger] owners[k]).uid == u,
    decreases n,
{
    if n > 0 {
        if g.link_all(node, owners, n - 1).table.contains_key(u) {
            lemma_new_keys_are_owners(g, node, owners, n - 1, u);
        } else {
            assert(owners[n - 1].uid == u);
        }
    }
}

/// An object that was not known gets a node of its own, found under its identifier, with the
/// object's identity and owners and with the flags that its metadata calls for. Each owner is then
/// known and lists it among its dependents; an owner that was not known before is only named, and
/// is queued so that it is looked for. The object is queued for orphaning when its deletion asks
/// for that, and is tried when its deletion waits for its dependents.
pub proof fn law_new_object_enters_the_graph(g: &mut GraphBuilder, e: GraphEvent)
    requires
        call_ensures(GraphBuilder::process_graph_change, (g, &e), ()),
        old(g)@.wf(),
        old(g)@.nodes.len() + meta::listed_owners(e.new.meta).len() + 1 < usize::MAX,
        e.kind != GraphChangeEventKind::Delete,
        !old(g)@.table.contains_key(e.new.meta.uid),
    ensures
        ({
            let before = old(g)@;
            let after = final(g)@;
            let m = e.new.meta;
            let n = before.nodes.len() as int;
            let owners = meta::listed_owners(m);
            let node = after.nodes[n];
            let deleted = m.deletion_timestamp is Some;
            let orphaning = deleted && (m.finalizers matches Some(v) && v@.contains(
                Finalizer::OrphanDependents,
            ));
            let waiting = deleted && (m.finalizers matches Some(v) && v@.contains(
                Finalizer::DeletingDependents,
            ));
            &&& after.table.contains_key(m.uid) && after.table[m.uid] == n
            &&& node.identity.uid == m.uid && node.identity.kind == e.new.kind
            &&& node.identity.name@ == m.name@ && node.identity.namespace@ == m.namespace@
            &&& !node.is_virtual
            &&& node.owners == owners
            &&& node.being_deleted == deleted
            &&& node.deleting_dependents == waiting
            &&& forall|i: int|
                0 <= i < owners.len() ==> after.table.contains_key((#[trigger] owners[i]).uid)
                    && after.nodes[after.table[owners[i].uid] as int].dependents.contains(n as usize)
            &&& forall|i: int|
                0 <= i < owners.len() && (#[trigger] owners[i]).uid != m.uid
                    && !before.table.contains_key(owners[i].uid) ==> after.deletes.contains(
                    after.table[owners[i].uid],
                ) && after.nodes[after.table[owners[i].uid] as int].is_virtual
            &&& after.orphans == if orphaning {
                before.orphans.push(n as usize)
            } else {
                before.orphans
            }
            &&& waiting && !orphaning ==> after.deletes.contains(n as usize)
            &&& extends(after.deletes, before.deletes)
        }),
{
    let before = old(g)@;
    let after = final(g)@;
    let m = e.new.meta;
    let n = before.nodes.len() as usize;
    let owners = types::owners_of(m);
    assert(owners == meta::listed_owners(m));
    let v = graph::fresh_node(ObjectReference::of_meta(m, e.new.kind), false);
    let v1 = NodeView {
        deleting_dependents: is_being_deleted(m) && carries(m, Finalizer::DeletingDependents),
        being_deleted: is_being_deleted(m),
        ..v
    };
    let a = before.new_node(m.uid, v1);
    assert(a.wf()) by {
        assert forall|i: int| 0 <= i < a.nodes.len() implies all_below(
            (#[trigger] a.nodes[i]).dependents,
            a.nodes.len(),
        ) by {
            if i < before.nodes.len() {
                assert(all_below(before.nodes[i].dependents, before.nodes.len()));
            }
        }
    }
    let len = owners.len() as int;
    lemma_link_all_frame(a, n, owners, len);
    law_linked_owners_list_the_dependent(a, n, owners, len);
    let b = a.link_all(n, owners, len);
    assert(owners.take(len) =~= owners);
    assert(Seq::<OwnerReference>::empty() + owners =~= owners);
    assert(after == b.transition(n, None, m));
    assert(a.table.contains_key(m.uid));
    if deletion_starts(None, m, Finalizer::OrphanDependents) {
    } else if deletion_starts(None, m, Finalizer::DeletingDependents) {
        let deps = b.nodes[n as int].dependents;
        assert(after.deletes =~= b.deletes + deps + seq![n]);
        assert(after.deletes[after.deletes.len() - 1] == n);
        assert(after.deletes.take(before.deletes.len() as int) =~= b.deletes.take(
            before.deletes.len() as int,
        ));
        assert forall|x: usize| #[trigger] b.deletes.contains(x) implies after.deletes.contains(x) by {
            let k = choose|k: int| 0 <= k < b.deletes.len() && b.deletes[k] == x;
            assert(after.deletes[k] == x);
        }
    }
    assert forall|i: int| 0 <= i < owners.len() implies after.table.contains_key(
        (#[trigger] owners[i]).uid,
    ) && after.nodes[after.table[owners[i].uid] as int].dependents.contains(n) by {
        assert(b.table.contains_key(owners[i].uid));
    }
    assert forall|i: int|
        0 <= i < owners.len() && (#[trigger] owners[i]).uid != m.uid && !before.table.contains_key(
            owners[i].uid,
        ) implies after.deletes.contains(after.table[owners[i].uid])
        && after.nodes[after.table[owners[i].uid] as int].is_virtual by {
        assert(!a.table.contains_key(owners[i].uid));
        assert(b.deletes.contains(b.table[owners[i].uid]));
    }
}

/// What unlinking from owners leaves alone elsewhere.
proof fn lemma_unlink_all_elsewhere(
    g: GraphView,
    node: usize,
    owners: Seq<OwnerReference>,
    n: int,
    u: u128,
)
    requires
        g.wf(),
        node < g.nodes.len(),
        0 <= n <= owners.len(),
        g.table.contains_key(u),
        forall|i: int| 0 <= i < n ==> (#[trigger] owners[i]).uid != u,
    ensures
        g.unlink_all(node, owners, n).nodes[g.table[u] as int].dependents
            == g.nodes[g.table[u] as int].dependents,
        g.unlink_all(node, owners, n).wf(),
        g.unlink_all(node, owners, n).table == g.table,
        g.unlink_all(node, owners, n).nodes.len() == g.nodes.len(),
    decreases n,
{
    if n > 0 {
        lemma_unlink_all_elsewhere(g, node, owners, n - 1, u);
        let a = g.unlink_all(node, owners, n - 1);
        lemma_unlink_wf(a, node, owners[n - 1]);
        let x = owners[n - 1].uid;
        if a.table.contains_key(x) {
            assert(a.nodes[a.table[x] as int].identity.uid == x);
            assert(a.nodes[a.table[u] as int].identity.uid == u);
            assert(a.table[x] != a.table[u]);
        }
    }
}

proof fn lemma_unlink_all_flags(g: GraphView, node: usize, owners: Seq<OwnerReference>, n: int)
    requires
        g.wf(),
        node < g.nodes.len(),
        0 <= n <= owners.len(),
    ensures
        ({
            let h = g.unlink_all(node, owners, n);
            &&& h.nodes.len() == g.nodes.len()
            &&& forall|m: int|
                0 <= m < g.nodes.len() ==> (#[trigger] h.nodes[m]).identity == g.nodes[m].identity
                    && h.nodes[m].is_virtual == g.nodes[m].is_virtual
                    && h.nodes[m].being_deleted == g.nodes[m].being_deleted
        }),
    decreases n,
{
    if n > 0 {
        lemma_unlink_all_flags(g, node, owners, n - 1);
        lemma_unlink_all_frame(g, node, owners, n - 1);
        lemma_unlink_wf(g.unlink_all(node, owners, n - 1), node, owners[n - 1]);
    }
}

/// What a change of owners does and leaves alone.
proof fn lemma_update_owners(g: GraphView, n: usize, owners: Seq<OwnerReference>)
    requires
        g.wf(),
        n < g.nodes.len(),
        g.nodes.len() + owners.len() < usize::MAX,
    ensures
        ({
            let h = g.update_owners(n, owners);
            let was = g.nodes[n as int].owners;
            &&& h.wf()
            &&& h.orphans == g.orphans
            &&& extends(h.deletes, g.deletes)
            &&& h.nodes.len() >= g.nodes.len()
            &&& h.nodes[n as int].identity == g.nodes[n as int].identity
            &&& h.nodes[n as int].is_virtual == g.nodes[n as int].is_virtual
            &&& h.nodes[n as int].deleting_dependents == g.nodes[n as int].deleting_dependents
            &&& h.nodes[n as int].being_deleted == g.nodes[n as int].being_deleted
            &&& forall|u: u128| #[trigger]
                g.table.contains_key(u) ==> h.table.contains_key(u) && h.table[u] == g.table[u]
            &&& forall|i: int|
                0 <= i < owners.len() && !has_uid(was, (#[trigger] owners[i]).uid)
                    ==> h.table.contains_key(owners[i].uid)
                    && h.nodes[h.table[owners[i].uid] as int].dependents.contains(n)
            &&& forall|i: int|
                0 <= i < was.len() && !has_uid(owners, (#[trigger] was[i]).uid)
                    && g.table.contains_key(was[i].uid)
                    ==> !h.nodes[g.table[was[i].uid] as int].dependents.contains(n)
            &&& forall|i: int|
                0 <= i < was.len() && !has_uid(owners, (#[trigger] was[i]).uid)
                    && was[i].block_owner_deletion == Some(true) && g.table.contains_key(was[i].uid)
                    ==> h.deletes.contains(g.table[was[i].uid])
        }),
{
    let was = g.nodes[n as int].owners;
    let (added, removed, changed) = reference_difference(was, owners);
    let h = g.update_owners(n, owners);
    owners.lemma_filter_len(missing_from(was));
    seqs::lemma_filter_members(owners, missing_from(was));
    seqs::lemma_filter_members(was, missing_from(owners));
    assert forall|i: int| 0 <= i < owners.len() && !has_uid(was, (#[trigger] owners[i]).uid) implies added.contains(
    owners[i]) by {
        assert(owners.contains(owners[i]));
    }
    assert forall|i: int| 0 <= i < was.len() && !has_uid(owners, (#[trigger] was[i]).uid) implies removed.contains(
    was[i]) by {
        assert(was.contains(was[i]));
    }
    assert(g.deletes.take(g.deletes.len() as int) =~= g.deletes);
    if added.len() > 0 || removed.len() > 0 || changed.len() > 0 {
        let q1 = g.unblocked_by_removal(removed, removed.len() as int);
        let q2 = g.push_deletes(q1).unblocked_by_change(changed, changed.len() as int);
        lemma_unblocked_below(g, removed, removed.len() as int);
        lemma_changed_below(g.push_deletes(q1), changed, changed.len() as int);
        let a = g.push_deletes(q1).push_deletes(q2);
        let q3 = g.unblocked_by_change(changed, changed.len() as int);
        lemma_changed_same(g, q1, changed, changed.len() as int);
        assert(a == g.push_deletes(q1).push_deletes(q3));
        let b = a.set_node(n, NodeView { owners: owners, ..a.nodes[n as int] });
        assert(b.wf()) by {
            assert forall|i: int| 0 <= i < b.nodes.len() implies all_below(
                (#[trigger] b.nodes[i]).dependents,
                b.nodes.len(),
            ) by {
                assert(all_below(g.nodes[i].dependents, g.nodes.len()));
            }
        }
        let la = added.len() as int;
        let lr = removed.len() as int;
        lemma_link_all_frame(b, n, added, la);
        law_linked_owners_list_the_dependent(b, n, added, la);
        let c = b.link_all(n, added, la);
        lemma_unlink_all_frame(c, n, removed, lr);
        lemma_unlink_all_flags(c, n, removed, lr);
        assert(h == c.unlink_all(n, removed, lr));
        assert(extends(b.deletes, g.deletes)) by {
            assert(b.deletes.take(g.deletes.len() as int) =~= g.deletes);
        }
        assert(extends(h.deletes, g.deletes)) by {
            assert(h.deletes == c.deletes);
            assert(h.deletes.take(g.deletes.len() as int) =~= c.deletes.take(
                b.deletes.len() as int,
            ).take(g.deletes.len() as int));
        }
        assert forall|i: int| 0 <= i < owners.len() && !has_uid(was, (#[trigger] owners[i]).uid) implies h.table.contains_key(
        owners[i].uid) && h.nodes[h.table[owners[i].uid] as int].dependents.contains(n) by {
            let k = choose|k: int| 0 <= k < added.len() && added[k] == owners[i];
            let u = added[k].uid;
            assert(c.table.contains_key(u));
            assert forall|j: int| 0 <= j < lr implies (#[trigger] removed[j]).uid != u by {
                assert(removed.contains(removed[j]));
                assert(owners[i].uid == u);
                assert(has_uid(owners, u));
            }
            lemma_unlink_all_elsewhere(c, n, removed, lr, u);
        }
        assert forall|i: int|
            0 <= i < was.len() && !has_uid(owners, (#[trigger] was[i]).uid) && g.table.contains_key(
                was[i].uid,
            ) implies !h.nodes[g.table[was[i].uid] as int].dependents.contains(n) by {
            let k = choose|k: int| 0 <= k < removed.len() && removed[k] == was[i];
            assert(c.table.contains_key(removed[k].uid));
        }
        assert forall|i: int|
            0 <= i < was.len() && !has_uid(owners, (#[trigger] was[i]).uid)
                && was[i].block_owner_deletion == Some(true) && g.table.contains_key(was[i].uid) implies h.deletes.contains(
        g.table[was[i].uid]) by {
            let k = choose|k: int| 0 <= k < removed.len() && removed[k] == was[i];
            lemma_unblocked_contains(g, removed, removed.len() as int, k);
            let x = g.table[was[i].uid];
            let p = choose|p: int| 0 <= p < q1.len() && q1[p] == x;
            assert(b.deletes[g.deletes.len() + p] == x);
            assert(c.deletes.take(b.deletes.len() as int)[g.deletes.len() + p] == x);
            assert(h.deletes[g.deletes.len() + p] == x);
        }
    } else {
        assert forall|i: int| 0 <= i < owners.len() implies has_uid(was, (#[trigger] owners[i]).uid) by {
            if !has_uid(was, owners[i].uid) {
                assert(added.contains(owners[i]));
            }
        }
        assert forall|i: int| 0 <= i < was.len() implies has_uid(owners, (#[trigger] was[i]).uid) by {
            if !has_uid(owners, was[i].uid) {
                assert(removed.contains(was[i]));
            }
        }
    }
}

proof fn lemma_unblocked_below(g: GraphView, removed: Seq<OwnerReference>, n: int)
    requires
        g.wf(),
        0 <= n <= removed.len(),
    ensures
        all_below(g.unblocked_by_removal(removed, n), g.nodes.len()),
    decreases n,
{
    if n > 0 {
        lemma_unblocked_below(g, removed, n - 1);
    }
}

proof fn lemma_unblocked_contains(g: GraphView, removed: Seq<OwnerReference>, n: int, k: int)
    requires
        0 <= k < n <= removed.len(),
        removed[k].block_owner_deletion == Some(true),
        g.table.contains_key(removed[k].uid),
    ensures
        g.unblocked_by_removal(removed, n).contains(g.table[removed[k].uid]),
    decreases n,
{
    let x = g.table[removed[k].uid];
    let b = g.unblocked_by_removal(removed, n);
    if k < n - 1 {
        lemma_unblocked_contains(g, removed, n - 1, k);
        let a = g.unblocked_by_removal(removed, n - 1);
        let i = choose|i: int| 0 <= i < a.len() && a[i] == x;
        assert(b[i] == x);
    } else {
        assert(b[b.len() - 1] == x);
    }
}

proof fn lemma_changed_below(g: GraphView, changed: Seq<(OwnerReference, OwnerReference)>, n: int)
    requires
        forall|u: u128| #[trigger] g.table.contains_key(u) ==> g.table[u] < g.nodes.len(),
        0 <= n <= changed.len(),
    ensures
        all_below(g.unblocked_by_change(changed, n), g.nodes.len()),
    decreases n,
{
    if n > 0 {
        lemma_changed_below(g, changed, n - 1);
    }
}

proof fn lemma_changed_same(
    g: GraphView,
    q: Seq<usize>,
    changed: Seq<(OwnerReference, OwnerReference)>,
    n: int,
)
    ensures
        g.push_deletes(q).unblocked_by_change(changed, n) == g.unblocked_by_change(changed, n),
    decreases n,
{
    if n > 0 {
        lemma_changed_same(g, q, changed, n - 1);
    }
}

/// When the owners of a known object change, each owner that it did not have before is known
/// afterwards and lists it among its dependents, and a known owner that it has no longer does not
/// list it any more. If the object held back the deletion of such an owner, that owner is tried.
/// Nothing is orphaned unless a deletion asks for that, and nothing that was queued is lost.
pub proof fn law_changed_owners_are_followed(g: &mut GraphBuilder, e: GraphEvent)
    requires
        call_ensures(GraphBuilder::process_graph_change, (g, &e), ()),
        old(g)@.wf(),
        old(g)@.nodes.len() + meta::listed_owners(e.new.meta).len() + 1 < usize::MAX,
        e.kind != GraphChangeEventKind::Delete,
        old(g)@.table.contains_key(e.new.meta.uid),
        !old(g)@.nodes[old(g)@.table[e.new.meta.uid] as int].is_virtual,
    ensures
        ({
            let before = old(g)@;
            let after = final(g)@;
            let n = before.table[e.new.meta.uid];
            let was = before.nodes[n as int].owners;
            let is = meta::listed_owners(e.new.meta);
            &&& after.table.contains_key(e.new.meta.uid) && after.table[e.new.meta.uid] == n
            &&& extends(after.deletes, before.deletes)
            &&& e.new.meta.deletion_timestamp is Some ==> after.nodes[n as int].being_deleted
            &&& forall|i: int|
                0 <= i < is.len() && !has_uid(was, (#[trigger] is[i]).uid)
                    ==> after.table.contains_key(is[i].uid)
                    && after.nodes[after.table[is[i].uid] as int].dependents.contains(n)
            &&& forall|i: int|
                0 <= i < was.len() && !has_uid(is, (#[trigger] was[i]).uid)
                    && before.table.contains_key(was[i].uid)
                    ==> !after.nodes[before.table[was[i].uid] as int].dependents.contains(n)
            &&& forall|i: int|
                0 <= i < was.len() && !has_uid(is, (#[trigger] was[i]).uid)
                    && was[i].block_owner_deletion == Some(true) && before.table.contains_key(
                    was[i].uid,
                ) ==> after.deletes.contains(before.table[was[i].uid])
        }),
{
    let before = old(g)@;
    let n = before.table[e.new.meta.uid];
    let owners = types::owners_of(e.new.meta);
    assert(owners == meta::listed_owners(e.new.meta));
    lemma_update_owners(before, n, owners);
    lemma_updated(before, n, e);
}

/// What follows the change of owners of a known object.
proof fn lemma_updated(g: GraphView, n: usize, e: GraphEvent)
    requires
        g.wf(),
        n < g.nodes.len(),
        g.nodes.len() + types::owners_of(e.new.meta).len() < usize::MAX,
    ensures
        ({
            let h = g.update_owners(n, types::owners_of(e.new.meta));
            let after = g.updated(n, e);
            &&& after.table == h.table
            &&& after.nodes.len() == h.nodes.len()
            &&& extends(after.deletes, g.deletes)
            &&& forall|x: usize| #[trigger] h.deletes.contains(x) ==> after.deletes.contains(x)
            &&& forall|m: int|
                0 <= m < h.nodes.len() ==> (#[trigger] after.nodes[m]).dependents
                    == h.nodes[m].dependents
            &&& is_being_deleted(e.new.meta) ==> after.nodes[n as int].being_deleted
        }),
{
    let h = g.update_owners(n, types::owners_of(e.new.meta));
    lemma_update_owners(g, n, types::owners_of(e.new.meta));
    let after = g.updated(n, e);
    let deps = h.nodes[n as int].dependents;
    if after.deletes != h.deletes {
        assert(after.deletes =~= h.deletes + deps + seq![n]);
        assert forall|x: usize| #[trigger] h.deletes.contains(x) implies after.deletes.contains(x) by {
            let k = choose|k: int| 0 <= k < h.deletes.len() && h.deletes[k] == x;
            assert(after.deletes[k] == x);
        }
        assert(after.deletes.take(g.deletes.len() as int) =~= h.deletes.take(
            g.deletes.len() as int,
        ));
    }
}

/// Whether this change is the one that starts a deletion with the finalizer.
pub open spec fn starts_now(e: GraphEvent, f: Finalizer) -> bool {
    let now = e.new.meta.deletion_timestamp is Some && (e.new.meta.finalizers matches Some(v)
        && v@.contains(f));
    let before = match e.old {
        Some(i) => i.meta.deletion_timestamp is Some && (i.meta.finalizers matches Some(v)
            && v@.contains(f)),
        None => false,
    };
    now && !before
}

/// A known object whose deletion starts to wait for its dependents is marked so, and is tried
/// along with every dependent that it has. One whose deletion starts to orphan them is queued for
/// that instead, and for nothing else. Without such a start nothing is orphaned and the mark stays
/// as it was.
pub proof fn law_deletions_start_once(g: &mut GraphBuilder, e: GraphEvent)
    requires
        call_ensures(GraphBuilder::process_graph_change, (g, &e), ()),
        old(g)@.wf(),
        old(g)@.nodes.len() + meta::listed_owners(e.new.meta).len() + 1 < usize::MAX,
        e.kind != GraphChangeEventKind::Delete,
        old(g)@.table.contains_key(e.new.meta.uid),
        !old(g)@.nodes[old(g)@.table[e.new.meta.uid] as int].is_virtual,
    ensures
        ({
            let before = old(g)@;
            let after = final(g)@;
            let n = before.table[e.new.meta.uid];
            let orphans = starts_now(e, Finalizer::OrphanDependents);
            let waits = starts_now(e, Finalizer::DeletingDependents);
            &&& after.orphans == if orphans {
                before.orphans.push(n)
            } else {
                before.orphans
            }
            &&& waits && !orphans ==> after.nodes[n as int].deleting_dependents
            &&& waits && !orphans ==> after.deletes.contains(n)
            &&& waits && !orphans ==> forall|d: usize| #[trigger]
                after.nodes[n as int].dependents.contains(d) ==> after.deletes.contains(d)
            &&& !waits || orphans ==> after.nodes[n as int].deleting_dependents
                == before.nodes[n as int].deleting_dependents
        }),
{
    let before = old(g)@;
    let n = before.table[e.new.meta.uid];
    let owners = types::owners_of(e.new.meta);
    assert(owners == meta::listed_owners(e.new.meta));
    lemma_update_owners(before, n, owners);
    let h = before.update_owners(n, owners);
    let after = final(g)@;
    let old_meta = match e.old {
        Some(i) => Some(i.meta),
        None => None,
    };
    assert(deletion_starts(old_meta, e.new.meta, Finalizer::OrphanDependents) == starts_now(
        e,
        Finalizer::OrphanDependents,
    ));
    assert(deletion_starts(old_meta, e.new.meta, Finalizer::DeletingDependents) == starts_now(
        e,
        Finalizer::DeletingDependents,
    ));
    let deps = h.nodes[n as int].dependents;
    if starts_now(e, Finalizer::DeletingDependents) && !starts_now(e, Finalizer::OrphanDependents) {
        assert(after.deletes =~= h.deletes + deps + seq![n]);
        assert(after.deletes[after.deletes.len() - 1] == n);
        assert forall|d: usize| #[trigger] after.nodes[n as int].dependents.contains(d) implies after.deletes.contains(
        d) by {
            let k = choose|k: int| 0 <= k < deps.len() && deps[k] == d;
            assert(after.deletes[h.deletes.len() + k] == d);
        }
    }
}

proof fn lemma_first_reference(owners: Seq<OwnerReference>, uid: u128, from: int)
    requires
        0 <= from <= owners.len(),
    ensures
        first_with_uid(owners, uid, from) is None <==> forall|k: int|
            from <= k < owners.len() ==> (#[trigger] owners[k]).uid != uid,
        first_with_uid(owners, uid, from) matches Some(o) ==> o.uid == uid && exists|k: int|
            from <= k < owners.len() && #[trigger] owners[k] == o,
    decreases owners.len() - from,
{
    if from < owners.len() && owners[from].uid != uid {
        lemma_first_reference(owners, uid, from + 1);
    } else if from < owners.len() {
        assert(owners[from].uid == uid);
    }
}

proof fn lemma_changed_pair(
    old_owners: Seq<OwnerReference>,
    new_owners: Seq<OwnerReference>,
    n: int,
    i: int,
)
    requires
        0 <= n <= new_owners.len(),
        0 <= i < changed_pairs(old_owners, new_owners, n).len(),
    ensures
        ({
            let p = changed_pairs(old_owners, new_owners, n)[i];
            &&& p.0.uid == p.1.uid
            &&& p.0.block_owner_deletion != p.1.block_owner_deletion
            &&& old_owners.contains(p.0)
            &&& new_owners.contains(p.1)
        }),
    decreases n,
{
    if n > 0 {
        let rest = changed_pairs(old_owners, new_owners, n - 1);
        if i < rest.len() {
            lemma_changed_pair(old_owners, new_owners, n - 1, i);
        } else {
            lemma_first_reference(old_owners, new_owners[n - 1].uid, 0);
            assert(new_owners[n - 1] == changed_pairs(old_owners, new_owners, n)[i].1);
        }
    }
}

proof fn lemma_changed_is_paired(
    old_owners: Seq<OwnerReference>,
    new_owners: Seq<OwnerReference>,
    n: int,
    j: int,
    k: int,
)
    requires
        0 <= j < n <= new_owners.len(),
        0 <= k < old_owners.len(),
        old_owners[k].uid == new_owners[j].uid,
        forall|i: int|
            0 <= i < old_owners.len() && i != k ==> (#[trigger] old_owners[i]).uid
                != new_owners[j].uid,
        old_owners[k].block_owner_deletion != new_owners[j].block_owner_deletion,
    ensures
        changed_pairs(old_owners, new_owners, n).contains((old_owners[k], new_owners[j])),
    decreases n,
{
    let p = (old_owners[k], new_owners[j]);
    let now = changed_pairs(old_owners, new_owners, n);
    lemma_first_reference(old_owners, new_owners[j].uid, 0);
    if j == n - 1 {
        assert(first_with_uid(old_owners, new_owners[j].uid, 0) == Some(old_owners[k]));
        assert(now[now.len() - 1] == p);
    } else {
        lemma_changed_is_paired(old_owners, new_owners, n - 1, j, k);
        let rest = changed_pairs(old_owners, new_owners, n - 1);
        let i = choose|i: int| 0 <= i < rest.len() && rest[i] == p;
        assert(now[i] == p);
    }
}

/// The owners that came are those that were not named before, and the owners that went are those
/// that are not named any more. Those that stay are told where they begin or cease to be blocked.
pub proof fn law_difference_of_owners_is_told(
    old_owners: Vec<OwnerReference>,
    new_owners: Vec<OwnerReference>,
    r: (Vec<OwnerReference>, Vec<OwnerReference>, Vec<(OwnerReference, OwnerReference)>),
    o: OwnerReference,
    i: int,
    j: int,
    k: int,
)
    requires
        call_ensures(get_reference_difference, (&old_owners, &new_owners), r),
    ensures
        r.0@.contains(o) <==> new_owners@.contains(o) && !(exists|x: int|
            0 <= x < old_owners@.len() && (#[trigger] old_owners@[x]).uid == o.uid),
        r.1@.contains(o) <==> old_owners@.contains(o) && !(exists|x: int|
            0 <= x < new_owners@.len() && (#[trigger] new_owners@[x]).uid == o.uid),
        0 <= i < r.2@.len() ==> r.2@[i].0.uid == r.2@[i].1.uid && r.2@[i].0.block_owner_deletion
            != r.2@[i].1.block_owner_deletion && old_owners@.contains(r.2@[i].0)
            && new_owners@.contains(r.2@[i].1),
        0 <= j < new_owners@.len() && 0 <= k < old_owners@.len() && old_owners@[k].uid
            == new_owners@[j].uid && old_owners@[k].block_owner_deletion
            != new_owners@[j].block_owner_deletion && distinct_owners(old_owners@)
            ==> r.2@.contains((old_owners@[k], new_owners@[j])),
{
    crate::seqs::lemma_filter_members(new_owners@, missing_from(old_owners@));
    crate::seqs::lemma_filter_members(old_owners@, missing_from(new_owners@));
    assert(missing_from(old_owners@)(o) <==> !has_uid(old_owners@, o.uid));
    assert(missing_from(new_owners@)(o) <==> !has_uid(new_owners@, o.uid));
    let n = new_owners@.len() as int;
    if 0 <= i < r.2@.len() {
        lemma_changed_pair(old_owners@, new_owners@, n, i);
    }
    if 0 <= j < new_owners@.len() && 0 <= k < old_owners@.len() && old_owners@[k].uid
        == new_owners@[j].uid && old_owners@[k].block_owner_deletion
        != new_owners@[j].block_owner_deletion && distinct_owners(old_owners@) {
        assert forall|x: int| 0 <= x < old_owners@.len() && x != k implies (
        #[trigger] old_owners@[x]).uid != new_owners@[j].uid by {
            if x < k {
                assert(old_owners@[x].uid != old_owners@[k].uid);
            } else {
                assert(old_owners@[k].uid != old_owners@[x].uid);
            }
        }
        lemma_changed_is_paired(old_owners@, new_owners@, n, j, k);
    }
}

} // verus!

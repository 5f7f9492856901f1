//! The course of an attempt to delete an item: what is read, and what is changed in the end.
use vstd::prelude::*;
use crate::controllers::garbage_collector;
use crate::controllers::garbage_collector::absent_owners;
use crate::controllers::garbage_collector::graph;
use crate::controllers::garbage_collector::graph_builder;
use crate::controllers::garbage_collector::graph_builder::{GraphBuilder, GraphEvent, GraphView};
use crate::controllers::garbage_collector::types::ObjectReference;
use crate::controllers::garbage_collector::{
    classify_owners, decide_deletion, is_dangling_owner, owner_known_absent, AfterRead,
    DeleteDecision, OwnerState,
};
use crate::protocol::meta::{
    copy_owners, DeletePropagationPolicy, Finalizer, ObjectMeta, OwnerReference,
};

verus! {

/// How far an attempt has come.
#[derive(Debug)]
pub enum Attempt {
    /// The item is read.
    Reading { node: usize },
    /// The first owner whose state is not known is read.
    Looking {
        node: usize,
        meta: ObjectMeta,
        owners: Vec<OwnerReference>,
        states: Vec<OwnerState>,
    },
    Ended,
}

/// A change of a stored object. One that is not stored anymore is left alone.
#[derive(Debug)]
pub enum StoreChange {
    SetOwners { target: ObjectReference, owners: Vec<OwnerReference> },
    RemoveFinalizer { target: ObjectReference, finalizer: Finalizer },
    Delete { target: ObjectReference, policy: DeletePropagationPolicy },
}

/// What is to be done next.
#[derive(Debug)]
pub enum AttemptAction {
    /// Read the metadata of the object.
    Read(ObjectReference),
    /// Tell the graph that the object is gone, and end.
    Emit(GraphEvent),
    /// Make the changes, in order, and end.
    Change(Vec<StoreChange>),
}

/// Whether the owner is known to be absent.
pub open spec fn known_absent(g: GraphView, owner: OwnerReference, namespace: String) -> bool {
    g.absent.contains(absent_owners::key_of(ObjectReference::of_owner(owner, namespace)@))
}

pub open spec fn sets_owners(
    c: StoreChange,
    target: ObjectReference,
    owners: Seq<OwnerReference>,
) -> bool {
    c matches StoreChange::SetOwners { target: t, owners: o } && t == target && o@ == owners
}

/// Whether the changes are those of a decision about a node.
pub open spec fn carries_out(
    g: GraphView,
    node: usize,
    d: DeleteDecision,
    changes: Seq<StoreChange>,
) -> bool {
    let n = g.nodes[node as int];
    match d {
        DeleteDecision::Keep => changes.len() == 0,
        DeleteDecision::PatchOwners(v) => changes.len() == 1 && sets_owners(
            changes[0],
            n.identity,
            v@,
        ),
        DeleteDecision::UnblockAndDeleteForeground => {
            let patches = garbage_collector::unblock_list(
                g,
                n.dependents,
                n.identity.uid,
                n.dependents.len() as int,
            );
            &&& changes.len() == patches.len() + 1
            &&& forall|i: int|
                0 <= i < patches.len() ==> sets_owners(
                    #[trigger] changes[i],
                    g.nodes[patches[i].0 as int].identity,
                    patches[i].1,
                )
            &&& changes.last() == (StoreChange::Delete {
                target: n.identity,
                policy: DeletePropagationPolicy::Foreground,
            })
        },
        DeleteDecision::Delete(policy) => changes == seq![
            StoreChange::Delete { target: n.identity, policy },
        ],
    }
}

/// Whether the changes are what the states of the owners call for.
pub open spec fn called_for(
    g: GraphView,
    node: usize,
    m: ObjectMeta,
    owners: Seq<OwnerReference>,
    states: Seq<OwnerState>,
    changes: Seq<StoreChange>,
) -> bool {
    let n = owners.len() as int;
    exists|d: DeleteDecision|
        garbage_collector::is_decision(
            d,
            garbage_collector::in_state(owners, states, OwnerState::Solid, n),
            garbage_collector::in_state(owners, states, OwnerState::Dangling, n),
            garbage_collector::in_state(owners, states, OwnerState::Waiting, n),
            g.nodes[node as int].dependents.len() > 0,
            m,
        ) && #[trigger] carries_out(g, node, d, changes)
}

/// Whether the attempt ends with what the states of the owners call for.
pub open spec fn decides(
    g: GraphView,
    node: usize,
    m: ObjectMeta,
    owners: Seq<OwnerReference>,
    states: Seq<OwnerState>,
    r: (Attempt, AttemptAction),
) -> bool {
    r.0 is Ended && (r.1 matches AttemptAction::Change(changes) && called_for(
        g,
        node,
        m,
        owners,
        states,
        changes@,
    ))
}

/// The known states, and that of each further owner up to the first that has to be read: those
/// owners are known to be absent.
pub open spec fn known_states(
    g: GraphView,
    namespace: String,
    owners: Seq<OwnerReference>,
    known: Seq<OwnerState>,
    states: Seq<OwnerState>,
) -> bool {
    &&& known.len() <= states.len() <= owners.len()
    &&& states.take(known.len() as int) == known
    &&& forall|i: int|
        known.len() <= i < states.len() ==> known_absent(g, owners[i], namespace)
            && #[trigger] states[i] == OwnerState::Dangling
    &&& states.len() < owners.len() ==> !known_absent(
        g,
        owners[states.len() as int],
        namespace,
    )
}

/// How an attempt goes on when the states of the first owners are known: with the next owner that
/// has to be read, or, when there is none, with the decision.
pub open spec fn looks(
    g: GraphView,
    node: usize,
    m: ObjectMeta,
    owners: Seq<OwnerReference>,
    known: Seq<OwnerState>,
    r: (Attempt, AttemptAction),
) -> bool {
    let namespace = g.nodes[node as int].identity.namespace;
    exists|states: Seq<OwnerState>| #[trigger]
        known_states(g, namespace, owners, known, states) && if states.len() == owners.len() {
            decides(g, node, m, owners, states, r)
        } else {
            &&& r.0 matches Attempt::Looking { node: n, meta, owners: o, states: s } && n == node
                && meta == m && o@ == owners && s@ == states
            &&& r.1 == AttemptAction::Read(
                ObjectReference::of_owner(owners[states.len() as int], namespace),
            )
        }
}

/// The graph after the item was found to wait for its dependents.
pub open spec fn waits_on(g: GraphView, node: usize) -> GraphView {
    let b = blocking(g, node);
    g.push_deletes(garbage_collector::not_yet_deleting(g, b, b.len() as int))
}

/// The dependents that block the deletion of a node.
pub open spec fn blocking(g: GraphView, node: usize) -> Seq<usize> {
    let n = g.nodes[node as int];
    graph::blocking_of(g.nodes, n.dependents, n.identity.uid, n.dependents.len() as int)
}

/// What follows once the item was read, with the graph before and after.
pub open spec fn read_item(
    g: GraphView,
    node: usize,
    found: Option<ObjectMeta>,
    after: GraphView,
    r: (Attempt, AttemptAction),
) -> bool {
    let n = g.nodes[node as int];
    match found {
        Some(m) if m.uid == n.identity.uid => {
            if n.deleting_dependents {
                &&& after == waits_on(g, node)
                &&& r.0 is Ended
                &&& r.1 matches AttemptAction::Change(changes) && changes@ == if blocking(
                    g,
                    node,
                ).len() == 0 {
                    seq![
                        StoreChange::RemoveFinalizer {
                            target: n.identity,
                            finalizer: Finalizer::DeletingDependents,
                        },
                    ]
                } else {
                    Seq::empty()
                }
            } else {
                &&& after == g
                &&& match m.owner_references {
                    None => r.0 is Ended && (r.1 matches AttemptAction::Change(c) && c@.len() == 0),
                    Some(owners) => looks(g, node, m, owners@, Seq::empty(), r),
                }
            }
        },
        _ => {
            &&& after == g
            &&& r.0 is Ended
            &&& r.1 matches AttemptAction::Emit(e) && garbage_collector::is_virtual_delete_of(
                e,
                n.identity,
            )
        },
    }
}

/// The graph after an owner was read: one that is not there is recorded as absent.
pub open spec fn owner_read(
    g: GraphView,
    owner: OwnerReference,
    namespace: String,
    found: Option<ObjectMeta>,
) -> GraphView {
    if garbage_collector::owner_state(owner, found) == OwnerState::Dangling {
        GraphView {
            absent: absent_owners::after_put(
                g.absent,
                absent_owners::key_of(ObjectReference::of_owner(owner, namespace)@),
                g.limit,
            ),
            ..g
        }
    } else {
        g
    }
}

/// Whether an attempt goes on with a read of that graph.
pub open spec fn is_open(g: GraphView, st: Attempt) -> bool {
    match st {
        Attempt::Reading { node } => node < g.nodes.len(),
        Attempt::Looking { node, meta, owners, states } => node < g.nodes.len() && states@.len()
            < owners@.len(),
        Attempt::Ended => false,
    }
}

/// What follows a read, with the graph before and after.
pub open spec fn follows(
    g: GraphView,
    st: Attempt,
    found: Option<ObjectMeta>,
    after: GraphView,
    r: (Attempt, AttemptAction),
) -> bool {
    match st {
        Attempt::Reading { node } => read_item(g, node, found, after, r),
        Attempt::Looking { node, meta, owners, states } => {
            let namespace = g.nodes[node as int].identity.namespace;
            let owner = owners@[states@.len() as int];
            &&& after == owner_read(g, owner, namespace, found)
            &&& looks(
                after,
                node,
                meta,
                owners@,
                states@.push(garbage_collector::owner_state(owner, found)),
                r,
            )
        },
        Attempt::Ended => false,
    }
}

fn end(changes: Vec<StoreChange>) -> (r: (Attempt, AttemptAction))
    ensures
        r.0 is Ended && r.1 == AttemptAction::Change(changes),
{
    (Attempt::Ended, AttemptAction::Change(changes))
}

impl GraphBuilder {
    /// Begins an attempt to delete an item, which ends at once when the item is being deleted
    /// already and does not wait for its dependents.
    pub fn begin_attempt(&self, node: usize) -> (r: (Attempt, AttemptAction))
        requires
            node < self@.nodes.len(),
        ensures
            ({
                let n = self@.nodes[node as int];
                if n.being_deleted && !n.deleting_dependents {
                    r.0 is Ended && (r.1 matches AttemptAction::Change(c) && c@.len() == 0)
                } else {
                    r.0 == (Attempt::Reading { node }) && r.1 == AttemptAction::Read(n.identity)
                }
            }),
    {
        match self.attempt_to_delete_item(node) {
            Some(id) => (Attempt::Reading { node }, AttemptAction::Read(id)),
            None => end(Vec::new()),
        }
    }

    fn changes_for(&self, node: usize, d: DeleteDecision) -> (r: Vec<StoreChange>)
        requires
            self@.wf(),
            node < self@.nodes.len(),
        ensures
            carries_out(self@, node, d, r@),
    {
        let ghost g = self@;
        assert(g.nodes[node as int] == self.nodes@[node as int]@);
        let mut out: Vec<StoreChange> = Vec::new();
        match d {
            DeleteDecision::Keep => {},
            DeleteDecision::PatchOwners(owners) => {
                out.push(
                    StoreChange::SetOwners { target: self.nodes[node].identity.copy(), owners },
                );
            },
            DeleteDecision::UnblockAndDeleteForeground => {
                let patches = self.unblock_dependents(node);
                let ghost pv = garbage_collector::patch_views(patches@);
                proof {
                    lemma_patched_nodes(
                        g,
                        g.nodes[node as int].dependents,
                        g.nodes[node as int].identity.uid,
                        g.nodes[node as int].dependents.len() as int,
                    );
                }
                for i in 0..patches.len()
                    invariant
                        g == self@,
                        pv == garbage_collector::patch_views(patches@),
                        forall|k: int|
                            0 <= k < pv.len() ==> (#[trigger] pv[k]).0 < g.nodes.len(),
                        out@.len() == i,
                        forall|k: int|
                            0 <= k < i ==> sets_owners(
                                #[trigger] out@[k],
                                g.nodes[pv[k].0 as int].identity,
                                pv[k].1,
                            ),
                {
                    assert(pv[i as int] == (patches@[i as int].0, patches@[i as int].1@));
                    let d = patches[i].0;
                    assert(g.nodes[d as int] == self.nodes@[d as int]@);
                    let target = self.nodes[d].identity.copy();
                    let owners = copy_owners(&patches[i].1);
                    out.push(StoreChange::SetOwners { target, owners });
                }
                let policy = DeletePropagationPolicy::Foreground;
                out.push(
                    StoreChange::Delete { target: self.nodes[node].identity.copy(), policy },
                );
            },
            DeleteDecision::Delete(policy) => {
                out.push(
                    StoreChange::Delete { target: self.nodes[node].identity.copy(), policy },
                );
            },
        }
        out
    }

    fn look(
        &self,
        node: usize,
        meta: ObjectMeta,
        owners: Vec<OwnerReference>,
        first: Vec<OwnerState>,
    ) -> (r: (Attempt, AttemptAction))
        requires
            self@.wf(),
            node < self@.nodes.len(),
            first@.len() <= owners@.len(),
        ensures
            looks(self@, node, meta, owners@, first@, r),
    {
        let ghost g = self@;
        let ghost known = first@;
        assert(g.nodes[node as int] == self.nodes@[node as int]@);
        let namespace = self.nodes[node].identity.namespace.clone();
        let mut states = first;
        assert(states@.take(known.len() as int) =~= known);
        while states.len() < owners.len()
            invariant
                g == self@,
                g.wf(),
                node < g.nodes.len(),
                known == first@,
                namespace == g.nodes[node as int].identity.namespace,
                known.len() <= states@.len() <= owners@.len(),
                states@.take(known.len() as int) == known,
                forall|i: int|
                    known.len() <= i < states@.len() ==> known_absent(g, owners@[i], namespace)
                        && #[trigger] states@[i] == OwnerState::Dangling,
            decreases owners@.len() - states@.len(),
        {
            let k: usize = states.len();
            if !owner_known_absent(&self.absent_owner_cache, &owners[k], &namespace) {
                assert(known_states(g, namespace, owners@, known, states@));
                let id = ObjectReference::from_owner_reference(&owners[k], namespace);
                return (Attempt::Looking { node, meta, owners, states }, AttemptAction::Read(id));
            }
            let ghost before = states@;
            states.push(OwnerState::Dangling);
            assert(states@.take(known.len() as int) =~= before.take(known.len() as int));
        }
        assert(known_states(g, namespace, owners@, known, states@));
        let (solid, dangling, waiting) = classify_owners(&owners, &states);
        let has_dependents = self.nodes[node].dependents_length() > 0;
        let d = decide_deletion(&solid, &dangling, &waiting, has_dependents, &meta);
        let ghost gd = d;
        let changes = self.changes_for(node, d);
        proof {
            assert(g.nodes[node as int] == self.nodes@[node as int]@);
            assert(carries_out(g, node, gd, changes@));
            assert(called_for(g, node, meta, owners@, states@, changes@));
        }
        end(changes)
    }

    /// Goes on with an attempt once the metadata of an object was read, or found missing.
    pub fn attempt_step(&mut self, st: Attempt, found: Option<ObjectMeta>) -> (r: (
        Attempt,
        AttemptAction,
    ))
        requires
            old(self)@.wf(),
            is_open(old(self)@, st),
        ensures
            follows(old(self)@, st, found, final(self)@, r),
            final(self)@.wf(),
    {
        let ghost g = self@;
        match st {
            Attempt::Reading { node } => {
                assert(g.nodes[node as int] == self.nodes@[node as int]@);
                match self.item_was_read(node, found.as_ref()) {
                    AfterRead::VirtualDelete(e) => (Attempt::Ended, AttemptAction::Emit(e)),
                    AfterRead::DeletingDependents => {
                        let none = self.process_deleting_dependents(node);
                        assert(self@.nodes[node as int] == self.nodes@[node as int]@);
                        let mut changes: Vec<StoreChange> = Vec::new();
                        if none {
                            let finalizer = Finalizer::DeletingDependents;
                            let target = self.nodes[node].identity.copy();
                            changes.push(StoreChange::RemoveFinalizer { target, finalizer });
                        }
                        end(changes)
                    },
                    AfterRead::NoOwners => end(Vec::new()),
                    AfterRead::ClassifyOwners => match found {
                        Some(meta) => {
                            let owners = match &meta.owner_references {
                                Some(v) => copy_owners(v),
                                None => Vec::new(),
                            };
                            self.look(node, meta, owners, Vec::new())
                        },
                        None => end(Vec::new()),
                    },
                }
            },
            Attempt::Looking { node, meta, owners, states } => {
                assert(g.nodes[node as int] == self.nodes@[node as int]@);
                let namespace = self.nodes[node].identity.namespace.clone();
                let k: usize = states.len();
                let s = is_dangling_owner(
                    &mut self.absent_owner_cache,
                    &owners[k],
                    &namespace,
                    found.as_ref(),
                );
                let mut states = states;
                states.push(s);
                proof {
                    assert(self@ == owner_read(g, owners@[k as int], namespace, found));
                }
                self.look(node, meta, owners, states)
            },
            Attempt::Ended => end(Vec::new()),
        }
    }
}

proof fn lemma_patched_nodes(g: GraphView, deps: Seq<usize>, uid: u128, n: int)
    requires
        0 <= n <= deps.len(),
        graph_builder::all_below(deps, g.nodes.len()),
    ensures
        forall|k: int|
            0 <= k < garbage_collector::unblock_list(g, deps, uid, n).len()
                ==> (#[trigger] garbage_collector::unblock_list(g, deps, uid, n)[k]).0
                < g.nodes.len(),
    decreases n,
{
    if n > 0 {
        lemma_patched_nodes(g, deps, uid, n - 1);
        assert(deps[n - 1] < g.nodes.len());
        let rest = garbage_collector::unblock_list(g, deps, uid, n - 1);
        let all = garbage_collector::unblock_list(g, deps, uid, n);
        assert forall|k: int| 0 <= k < all.len() implies (#[trigger] all[k]).0 < g.nodes.len() by {
            if k < rest.len() {
                assert(all[k] == rest[k]);
            }
        }
    }
}

/// The number of reads that an attempt makes at most.
pub open spec fn reads_left(st: Attempt) -> int {
    match st {
        Attempt::Looking { node, meta, owners, states } => owners@.len() - states@.len(),
        _ => 0,
    }
}

/// An attempt comes to its end: with each owner that is read, fewer are left.
pub proof fn law_attempt_ends(
    g: GraphView,
    st: Attempt,
    found: Option<ObjectMeta>,
    after: GraphView,
    r: (Attempt, AttemptAction),
)
    requires
        is_open(g, st),
        follows(g, st, found, after, r),
        st is Looking,
    ensures
        r.0 is Ended || (r.0 is Looking && 0 < reads_left(r.0) < reads_left(st) && is_open(
            after,
            r.0,
        )),
        r.0 is Ended <==> !(r.1 is Read),
{
}

/// An item is told to be gone exactly when it is not stored under its identifier, and then
/// nothing stored is changed.
pub proof fn law_only_missing_items_are_gone(
    g: GraphView,
    node: usize,
    found: Option<ObjectMeta>,
    after: GraphView,
    r: (Attempt, AttemptAction),
)
    requires
        node < g.nodes.len(),
        follows(g, Attempt::Reading { node }, found, after, r),
    ensures
        r.1 is Emit <==> (found is None || found->0.uid != g.nodes[node as int].identity.uid),
{
}

/// An item that waits for its dependents goes once nothing blocks it: its finalizer is removed
/// exactly then, and otherwise what blocks it is queued first.
pub proof fn law_foreground_waits_for_blocking_dependents(
    g: GraphView,
    node: usize,
    m: ObjectMeta,
    after: GraphView,
    r: (Attempt, AttemptAction),
)
    requires
        node < g.nodes.len(),
        g.nodes[node as int].deleting_dependents,
        m.uid == g.nodes[node as int].identity.uid,
        follows(g, Attempt::Reading { node }, Some(m), after, r),
    ensures
        r.0 is Ended && r.1 is Change,
        r.1->Change_0@.len() > 0 <==> blocking(g, node).len() == 0,
        blocking(g, node).len() > 0 ==> after.deletes == g.deletes
            + garbage_collector::not_yet_deleting(
            g,
            blocking(g, node),
            blocking(g, node).len() as int,
        ),
{
}

/// An item with a solid owner is not deleted, and one all of whose owners are gone is, with the
/// policy that its finalizers call for.
pub proof fn law_owners_decide_about_the_item(
    g: GraphView,
    node: usize,
    m: ObjectMeta,
    owners: Seq<OwnerReference>,
    states: Seq<OwnerState>,
    changes: Seq<StoreChange>,
)
    requires
        owners.len() == states.len(),
        called_for(g, node, m, owners, states, changes),
    ensures
        states.contains(OwnerState::Solid) ==> forall|i: int|
            0 <= i < changes.len() ==> !(#[trigger] changes[i] is Delete),
        owners.len() > 0 && (forall|i: int|
            0 <= i < states.len() ==> states[i] == OwnerState::Dangling) ==> changes == seq![
            StoreChange::Delete {
                target: g.nodes[node as int].identity,
                policy: garbage_collector::policy_for(m),
            },
        ],
{
    let n = owners.len() as int;
    let d = choose|d: DeleteDecision|
        garbage_collector::is_decision(
            d,
            garbage_collector::in_state(owners, states, OwnerState::Solid, n),
            garbage_collector::in_state(owners, states, OwnerState::Dangling, n),
            garbage_collector::in_state(owners, states, OwnerState::Waiting, n),
            g.nodes[node as int].dependents.len() > 0,
            m,
        ) && #[trigger] carries_out(g, node, d, changes);
    garbage_collector::law_cascade_rules(
        owners,
        states,
        g.nodes[node as int].dependents.len() > 0,
        m,
        d,
    );
}

/// After the last owner was looked at, an object is deleted exactly if no owner is solid: with a
/// solid one nothing is deleted, and without one the last change deletes it.
pub proof fn law_object_without_solid_owner_is_deleted(
    g: &mut GraphBuilder,
    node: usize,
    meta: ObjectMeta,
    owners: Vec<OwnerReference>,
    states: Vec<OwnerState>,
    found: Option<ObjectMeta>,
    r: (Attempt, AttemptAction),
)
    requires
        call_ensures(
            GraphBuilder::attempt_step,
            (g, Attempt::Looking { node, meta, owners, states }, found),
            r,
        ),
        states@.len() + 1 == owners@.len(),
    ensures
        ({
            let last = owners@.last();
            let last_is_solid = found matches Some(m) && m.uid == last.uid && !(
            m.deletion_timestamp is Some && (m.finalizers matches Some(f) && f@.contains(
                Finalizer::DeletingDependents,
            )));
            let solid = states@.contains(OwnerState::Solid) || last_is_solid;
            let item = old(g)@.nodes[node as int].identity;
            &&& r.0 is Ended
            &&& r.1 matches AttemptAction::Change(changes) && if solid {
                forall|i: int| 0 <= i < changes@.len() ==> !(#[trigger] changes@[i] is Delete)
            } else {
                changes@.len() > 0 && (changes@.last() matches StoreChange::Delete { target, policy }
                    && target == item)
            }
        }),
{
    let last = owners@[states@.len() as int];
    assert(last == owners@.last());
    let s = garbage_collector::owner_state(last, found);
    let known = states@.push(s);
    let after = final(g)@;
    assert(after.nodes == old(g)@.nodes);
    let namespace = after.nodes[node as int].identity.namespace;
    let now = choose|now: Seq<OwnerState>| #[trigger]
        known_states(after, namespace, owners@, known, now) && if now.len() == owners@.len() {
            decides(after, node, meta, owners@, now, r)
        } else {
            &&& r.0 matches Attempt::Looking { node: n, meta: m2, owners: o, states: s2 } && n
                == node && m2 == meta && o@ == owners@ && s2@ == now
            &&& r.1 == AttemptAction::Read(
                ObjectReference::of_owner(owners@[now.len() as int], namespace),
            )
        };
    assert(now =~= known) by {
        assert(now.take(known.len() as int) =~= now);
    }
    let changes = r.1->Change_0@;
    law_owners_decide_about_the_item(after, node, meta, owners@, now, changes);
    if states@.contains(OwnerState::Solid) {
        let k = choose|k: int| 0 <= k < states@.len() && states@[k] == OwnerState::Solid;
        assert(now[k] == OwnerState::Solid);
    } else if s == OwnerState::Solid {
        assert(now[now.len() - 1] == OwnerState::Solid);
    } else {
        assert forall|i: int| 0 <= i < now.len() implies #[trigger] now[i] != OwnerState::Solid by {
            if i < states@.len() {
                assert(states@[i] == now[i]);
            }
        }
        lemma_none_in_state(owners@, now, OwnerState::Solid, owners@.len() as int);
        let d = choose|d: DeleteDecision|
            garbage_collector::is_decision(
                d,
                garbage_collector::in_state(
                    owners@,
                    now,
                    OwnerState::Solid,
                    owners@.len() as int,
                ),
                garbage_collector::in_state(
                    owners@,
                    now,
                    OwnerState::Dangling,
                    owners@.len() as int,
                ),
                garbage_collector::in_state(
                    owners@,
                    now,
                    OwnerState::Waiting,
                    owners@.len() as int,
                ),
                after.nodes[node as int].dependents.len() > 0,
                meta,
            ) && #[trigger] carries_out(after, node, d, changes);
        assert(d is Delete || d is UnblockAndDeleteForeground);
    }
}

proof fn lemma_none_in_state(
    owners: Seq<OwnerReference>,
    states: Seq<OwnerState>,
    state: OwnerState,
    n: int,
)
    requires
        n <= states.len(),
        forall|i: int| 0 <= i < states.len() ==> #[trigger] states[i] != state,
    ensures
        garbage_collector::in_state(owners, states, state, n).len() == 0,
    decreases n,
{
    if n > 0 {
        lemma_none_in_state(owners, states, state, n - 1);
        assert(states[n - 1] != state);
    }
}

/// An object that waits for its dependents loses its finalizer once none blocks it. An object that
/// is not stored any more is told to be gone.
pub proof fn law_read_object_is_followed(
    g: &mut GraphBuilder,
    node: usize,
    found: Option<ObjectMeta>,
    r: (Attempt, AttemptAction),
)
    requires
        call_ensures(GraphBuilder::attempt_step, (g, Attempt::Reading { node }, found), r),
        node < g@.nodes.len(),
    ensures
        ({
            let n = old(g)@.nodes[node as int];
            let stored = found matches Some(m) && m.uid == n.identity.uid;
            &&& r.1 is Emit <==> !stored
            &&& r.1 matches AttemptAction::Emit(e) ==> e.is_virtual && e.new.meta.uid
                == n.identity.uid && e.new.kind == n.identity.kind
            &&& stored && n.deleting_dependents ==> (r.1 matches AttemptAction::Change(c) && (
            c@.len() > 0 <==> blocking(old(g)@, node).len() == 0) && (c@.len() > 0 ==> c@ == seq![
                StoreChange::RemoveFinalizer {
                    target: n.identity,
                    finalizer: Finalizer::DeletingDependents,
                },
            ]))
            &&& stored && !n.deleting_dependents && found->0.owner_references is None ==> (
            r.1 matches AttemptAction::Change(c) && c@.len() == 0)
        }),
{
    if let AttemptAction::Emit(e) = r.1 {
        assert(e.new.meta.deep_view().uid == e.new.meta.uid);
    }
}

} // verus!

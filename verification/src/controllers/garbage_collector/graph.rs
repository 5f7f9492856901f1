//! The nodes of the dependency graph and the table that finds them.
use std::collections::HashMap;
use vstd::prelude::*;
use crate::controllers::garbage_collector::types::ObjectReference;
use crate::protocol::meta::{copy_owners, flag_is, OwnerReference};
use crate::seqs;

verus! {

broadcast use vstd::std_specs::hash::group_hash_axioms;

/// An object in the graph. Nodes live in a list and are named by their position in it.
#[derive(Debug)]
pub struct Node {
    pub identity: ObjectReference,
    pub dependents: Vec<usize>,
    pub owners: Vec<OwnerReference>,
    pub is_virtual: bool,
    pub deleting_dependents: bool,
    pub being_deleted: bool,
}

/// The contents of a node.
pub struct NodeView {
    pub identity: ObjectReference,
    pub dependents: Seq<usize>,
    pub owners: Seq<OwnerReference>,
    pub is_virtual: bool,
    pub deleting_dependents: bool,
    pub being_deleted: bool,
}

impl View for Node {
    type V = NodeView;

    open spec fn view(&self) -> NodeView {
        NodeView {
            identity: self.identity,
            dependents: self.dependents@,
            owners: self.owners@,
            is_virtual: self.is_virtual,
            deleting_dependents: self.deleting_dependents,
            being_deleted: self.being_deleted,
        }
    }
}

/// A node without relations and flags.
pub open spec fn fresh_node(identity: ObjectReference, is_virtual: bool) -> NodeView {
    NodeView {
        identity,
        dependents: Seq::empty(),
        owners: Seq::empty(),
        is_virtual,
        deleting_dependents: false,
        being_deleted: false,
    }
}

/// The predicate that holds of every node but one.
pub open spec fn not_node(node: usize) -> spec_fn(usize) -> bool {
    |d: usize| d != node
}

/// The views of the nodes of a list.
pub open spec fn node_views(nodes: Seq<Node>) -> Seq<NodeView> {
    nodes.map_values(|n: Node| n@)
}

/// Whether the owner reference makes a dependent block the deletion of the object `uid`.
pub open spec fn blocks(o: OwnerReference, uid: u128) -> bool {
    o.block_owner_deletion == Some(true) && o.uid == uid
}

/// The node `d`, once for each of its first `n` owner references that block `uid`.
pub open spec fn blocking_entries(d: usize, owners: Seq<OwnerReference>, uid: u128, n: int) -> Seq<
    usize,
>
    decreases n,
{
    if n <= 0 {
        Seq::empty()
    } else {
        let rest = blocking_entries(d, owners, uid, n - 1);
        if blocks(owners[n - 1], uid) {
            rest.push(d)
        } else {
            rest
        }
    }
}

/// The blocking entries of the first `n` dependents, in order.
pub open spec fn blocking_of(
    nodes: Seq<NodeView>,
    dependents: Seq<usize>,
    uid: u128,
    n: int,
) -> Seq<usize>
    decreases n,
{
    if n <= 0 {
        Seq::empty()
    } else {
        let d = dependents[n - 1];
        blocking_of(nodes, dependents, uid, n - 1) + blocking_entries(
            d,
            nodes[d as int].owners,
            uid,
            nodes[d as int].owners.len() as int,
        )
    }
}

impl Node {
    pub fn new(identity: ObjectReference, is_virtual: bool) -> (r: Self)
        ensures
            r@ == fresh_node(identity, is_virtual),
    {
        Node {
            identity,
            dependents: Vec::new(),
            owners: Vec::new(),
            is_virtual,
            deleting_dependents: false,
            being_deleted: false,
        }
    }

    pub fn is_virtual(&self) -> (r: bool)
        ensures
            r == self.is_virtual,
    {
        self.is_virtual
    }

    /// Whether the object was seen, and is not only referred to.
    pub fn is_observed(&self) -> (r: bool)
        ensures
            r == !self.is_virtual,
    {
        !self.is_virtual
    }

    pub fn set_observed(&mut self)
        ensures
            final(self)@ == (NodeView { is_virtual: false, ..old(self)@ }),
    {
        self.is_virtual = false;
    }

    pub fn is_being_deleted(&self) -> (r: bool)
        ensures
            r == self.being_deleted,
    {
        self.being_deleted
    }

    pub fn set_being_deleted(&mut self)
        ensures
            final(self)@ == (NodeView { being_deleted: true, ..old(self)@ }),
    {
        self.being_deleted = true;
    }

    pub fn is_deleting_dependents(&self) -> (r: bool)
        ensures
            r == self.deleting_dependents,
    {
        self.deleting_dependents
    }

    pub fn set_deleting_dependents(&mut self)
        ensures
            final(self)@ == (NodeView { deleting_dependents: true, ..old(self)@ }),
    {
        self.deleting_dependents = true;
    }

    pub fn add_dependent(&mut self, node: usize)
        ensures
            final(self)@ == (NodeView {
                dependents: old(self)@.dependents.push(node),
                ..old(self)@
            }),
    {
        self.dependents.push(node);
    }

    /// Removes every entry of the node.
    pub fn remove_dependent(&mut self, node: usize)
        ensures
            final(self)@ == (NodeView {
                dependents: old(self)@.dependents.filter(not_node(node)),
                ..old(self)@
            }),
    {
        let ghost p = not_node(node);
        let mut kept: Vec<usize> = Vec::new();
        proof {
            seqs::lemma_filter_none(self.dependents@, p);
        }
        for i in 0..self.dependents.len()
            invariant
                *self == *old(self),
                p == not_node(node),
                kept@ == self.dependents@.take(i as int).filter(p),
        {
            proof {
                seqs::lemma_filter_take(self.dependents@, p, i as int);
            }
            if self.dependents[i] != node {
                kept.push(self.dependents[i]);
            }
        }
        self.dependents = kept;
    }

    pub fn dependents(&self) -> (r: &Vec<usize>)
        ensures
            *r == self.dependents,
    {
        &self.dependents
    }

    pub fn dependents_length(&self) -> (r: usize)
        ensures
            r == self.dependents@.len(),
    {
        self.dependents.len()
    }

    pub fn identity(&self) -> (r: &ObjectReference)
        ensures
            *r == self.identity,
    {
        &self.identity
    }

    pub fn set_identity(&mut self, identity: ObjectReference)
        ensures
            final(self)@ == (NodeView { identity, ..old(self)@ }),
    {
        self.identity = identity;
    }

    pub fn owners(&self) -> (r: &Vec<OwnerReference>)
        ensures
            *r == self.owners,
    {
        &self.owners
    }

    pub fn set_owners(&mut self, owners: Vec<OwnerReference>)
        ensures
            final(self)@ == (NodeView { owners: owners@, ..old(self)@ }),
    {
        self.owners = owners;
    }

    /// A node with the same contents.
    pub fn copy(&self) -> (r: Node)
        ensures
            r@ == self@,
    {
        let mut deps: Vec<usize> = Vec::new();
        for i in 0..self.dependents.len()
            invariant
                deps@ == self.dependents@.take(i as int),
        {
            deps.push(self.dependents[i]);
            assert(self.dependents@.take(i as int + 1) =~= self.dependents@.take(i as int).push(
                self.dependents@[i as int],
            ));
        }
        assert(self.dependents@.take(self.dependents@.len() as int) =~= self.dependents@);
        Node {
            identity: self.identity.copy(),
            dependents: deps,
            owners: copy_owners(&self.owners),
            is_virtual: self.is_virtual,
            deleting_dependents: self.deleting_dependents,
            being_deleted: self.being_deleted,
        }
    }

    /// The dependents that block the deletion of this node: each as often as it names
    /// this node as an owner whose deletion it blocks.
    pub fn blocking_dependents(&self, nodes: &Vec<Node>) -> (r: Vec<usize>)
        requires
            forall|i: int| 0 <= i < self.dependents@.len() ==> #[trigger] self.dependents@[i] < nodes@.len(),
        ensures
            r@ == blocking_of(
                node_views(nodes@),
                self.dependents@,
                self.identity.uid,
                self.dependents@.len() as int,
            ),
    {
        let mut out: Vec<usize> = Vec::new();
        for i in 0..self.dependents.len()
            invariant
                forall|k: int|
                    0 <= k < self.dependents@.len() ==> #[trigger] self.dependents@[k] < nodes@.len(),
                out@ == blocking_of(
                    node_views(nodes@),
                    self.dependents@,
                    self.identity.uid,
                    i as int,
                ),
        {
            let d = self.dependents[i];
            let ghost before = out@;
            assert(node_views(nodes@)[d as int] == nodes@[d as int]@);
            let n = nodes[d].owners.len();
            for j in 0..n
                invariant
                    d < nodes@.len(),
                    n == nodes@[d as int].owners@.len(),
                    out@ == before + blocking_entries(
                        d,
                        nodes@[d as int].owners@,
                        self.identity.uid,
                        j as int,
                    ),
            {
                let o = &nodes[d].owners[j];
                if flag_is(o.block_owner_deletion, true) && o.uid == self.identity.uid {
                    out.push(d);
                }
                assert(out@ =~= before + blocking_entries(
                    d,
                    nodes@[d as int].owners@,
                    self.identity.uid,
                    j as int + 1,
                ));
            }
        }
        out
    }
}

/// Finds the node of an object by the object's unique identifier.
pub struct UidToNodeTable {
    table: HashMap<u128, usize>,
}

impl View for UidToNodeTable {
    type V = Map<u128, usize>;

    closed spec fn view(&self) -> Map<u128, usize> {
        self.table@
    }
}

/// The entry of a map, if there is one.
pub open spec fn lookup(m: Map<u128, usize>, uid: u128) -> Option<usize> {
    if m.contains_key(uid) {
        Some(m[uid])
    } else {
        None
    }
}

impl UidToNodeTable {
    pub fn new() -> (r: Self)
        ensures
            r@ == Map::<u128, usize>::empty(),
    {
        UidToNodeTable { table: HashMap::new() }
    }

    pub fn insert(&mut self, uid: u128, node: usize)
        ensures
            final(self)@ == old(self)@.insert(uid, node),
    {
        self.table.insert(uid, node);
    }

    pub fn get(&self, uid: &u128) -> (r: Option<usize>)
        ensures
            r == lookup(self@, *uid),
    {
        match self.table.get(uid) {
            Some(n) => Some(*n),
            None => None,
        }
    }

    pub fn remove(&mut self, uid: &u128) -> (r: Option<usize>)
        ensures
            r == lookup(old(self)@, *uid),
            final(self)@ == old(self)@.remove(*uid),
    {
        self.table.remove(uid)
    }

    pub fn contains_key(&self, uid: &u128) -> (r: bool)
        ensures
            r == self@.contains_key(*uid),
    {
        self.table.contains_key(uid)
    }
}

proof fn lemma_blocking_entries(d: usize, owners: Seq<OwnerReference>, uid: u128, n: int)
    requires
        0 <= n <= owners.len(),
    ensures
        forall|i: int|
            0 <= i < blocking_entries(d, owners, uid, n).len() ==> #[trigger] blocking_entries(
                d,
                owners,
                uid,
                n,
            )[i] == d,
        blocking_entries(d, owners, uid, n).len() > 0 <==> exists|k: int|
            0 <= k < n && (#[trigger] owners[k]).uid == uid && owners[k].block_owner_deletion
                == Some(true),
    decreases n,
{
    if n > 0 {
        lemma_blocking_entries(d, owners, uid, n - 1);
    }
}

proof fn lemma_blocking_of(
    nodes: Seq<NodeView>,
    dependents: Seq<usize>,
    uid: u128,
    n: int,
    d: usize,
)
    requires
        0 <= n <= dependents.len(),
    ensures
        blocking_of(nodes, dependents, uid, n).contains(d) <==> dependents.take(n).contains(d)
            && exists|k: int|
            0 <= k < nodes[d as int].owners.len() && (#[trigger] nodes[d as int].owners[k]).uid
                == uid && nodes[d as int].owners[k].block_owner_deletion == Some(true),
    decreases n,
{
    broadcast use vstd::seq_lib::group_seq_properties;

    if n > 0 {
        lemma_blocking_of(nodes, dependents, uid, n - 1, d);
        let x = dependents[n - 1];
        let owners = nodes[x as int].owners;
        let own = blocking_entries(x, owners, uid, owners.len() as int);
        lemma_blocking_entries(x, owners, uid, owners.len() as int);
        assert(dependents.take(n) =~= dependents.take(n - 1).push(x));
        if own.contains(d) {
            let i = choose|i: int| 0 <= i < own.len() && own[i] == d;
            assert(own[i] == x);
        }
        if d == x && own.len() > 0 {
            assert(own[0] == d);
        }
    }
}

/// A dependent blocks its owner when one of its references to the owner says so.
pub proof fn law_dependents_block_by_their_references(
    node: Node,
    nodes: Vec<Node>,
    r: Vec<usize>,
    d: usize,
)
    requires
        call_ensures(Node::blocking_dependents, (&node, &nodes), r),
        d < nodes@.len(),
    ensures
        r@.contains(d) <==> node.dependents@.contains(d) && exists|k: int|
            0 <= k < nodes@[d as int].owners@.len() && (#[trigger] nodes@[d as int].owners@[k]).uid
                == node.identity.uid && nodes@[d as int].owners@[k].block_owner_deletion == Some(
                true,
            ),
{
    let n = node.dependents@.len() as int;
    lemma_blocking_of(node_views(nodes@), node.dependents@, node.identity.uid, n, d);
    assert(node.dependents@.take(n) =~= node.dependents@);
    assert(node_views(nodes@)[d as int] == nodes@[d as int]@);
}

} // verus!

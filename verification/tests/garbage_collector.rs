use rks::controllers::garbage_collector::absent_owners::AbsentOwnerCache;
use rks::controllers::garbage_collector::graph::{Node, UidToNodeTable};
use rks::controllers::garbage_collector::graph_builder::{
    get_reference_difference, GraphBuilder, GraphChangeEventInfo, GraphEvent,
};
use rks::controllers::garbage_collector::types::ObjectReference;
use rks::controllers::garbage_collector::{
    classify_owners, decide_deletion, is_dangling_owner, owner_known_absent,
    patch_new_owner_references, remove_finalizer, watch_resources, AfterRead, AttemptOutcome,
    DeleteDecision, OwnerState,
};
use rks::protocol::meta::{
    DeletePropagationPolicy, Finalizer, ObjectMeta, OwnerReference, ResourceKind,
};

fn owner(kind: ResourceKind, name: &str, uid: u128, block: bool) -> OwnerReference {
    OwnerReference {
        api_version: "v1".to_string(),
        kind,
        name: name.to_string(),
        uid,
        controller: kind != ResourceKind::Service,
        block_owner_deletion: Some(block),
    }
}

fn reference(kind: ResourceKind, name: &str, uid: u128, block: bool) -> ObjectReference {
    ObjectReference::new(kind, name.to_string(), uid, "default".to_string(), Some(block))
}

fn meta(name: &str, uid: u128, owners: Vec<OwnerReference>) -> ObjectMeta {
    let mut m = ObjectMeta::bare(name.to_string(), "default".to_string(), uid);
    m.owner_references = Some(owners);
    m
}

fn added(kind: ResourceKind, m: ObjectMeta) -> GraphEvent {
    GraphEvent::new_add(GraphChangeEventInfo { kind, meta: m })
}

#[test]
fn test_add_dependent_to_owners() {
    let mut graph = GraphBuilder::new();
    let owner_ref = owner(ResourceKind::Deployment, "deploy1", 11, false);
    graph.nodes.push(Node::new(reference(ResourceKind::Deployment, "deploy1", 11, false), false));
    graph.uid_to_node_table.insert(11, 0);
    let owner_ref2 = owner(ResourceKind::Service, "svc1", 12, false);
    graph.nodes.push(Node::new(reference(ResourceKind::Pod, "pod1", 13, true), false));

    graph.add_dependent_to_owners(1, &vec![owner_ref, owner_ref2]);

    let owner_node = graph.uid_to_node_table.get(&11);
    assert!(owner_node.is_some());
    let dependents = graph.nodes[owner_node.unwrap()].dependents();
    assert_eq!(dependents.len(), 1);
    assert_eq!(graph.nodes[dependents[0]].identity().name, "pod1");
    // The owner that is not known yet is looked at once.
    assert_eq!(graph.attempt_to_delete.len(), 1);
}

#[test]
fn test_get_reference_difference() {
    let old_owners = vec![
        owner(ResourceKind::Deployment, "deploy1", 1, true),
        owner(ResourceKind::Service, "svc1", 2, false),
    ];
    let new_owners = vec![
        owner(ResourceKind::Deployment, "deploy1", 1, false),
        owner(ResourceKind::Service, "svc2", 3, true),
    ];
    let (added, removed, changed) = get_reference_difference(&old_owners, &new_owners);
    assert_eq!(added.len(), 1);
    assert_eq!(removed.len(), 1);
    assert_eq!(changed.len(), 1);

    assert_eq!(added[0].name, "svc2");
    assert_eq!(removed[0].name, "svc1");
    assert_eq!(changed[0].0.name, "deploy1");
    assert_eq!(changed[0].1.name, "deploy1");
    assert_eq!(changed[0].0.block_owner_deletion, Some(true));
    assert_eq!(changed[0].1.block_owner_deletion, Some(false));
}

#[test]
fn differences_turn_round_with_their_lists() {
    let named = |v: &Vec<OwnerReference>| v.iter().map(|o| o.name.clone()).collect::<Vec<_>>();
    let first = vec![
        owner(ResourceKind::Pod, "a", 1, true),
        owner(ResourceKind::Pod, "b", 2, true),
        owner(ResourceKind::Pod, "c", 3, true),
        owner(ResourceKind::Pod, "d", 4, false),
    ];
    let second = vec![
        owner(ResourceKind::Pod, "e", 5, true),
        owner(ResourceKind::Pod, "renamed", 2, true),
        owner(ResourceKind::Pod, "d", 4, true),
        owner(ResourceKind::Pod, "f", 6, true),
    ];
    let (added, removed, changed) = get_reference_difference(&first, &second);
    assert_eq!(named(&added), ["e", "f"]);
    assert_eq!(named(&removed), ["a", "c"]);
    // Another name is no change: only the flag makes one.
    assert_eq!(changed.len(), 1);
    assert_eq!((changed[0].0.uid, changed[0].1.uid), (4, 4));

    let (back_added, back_removed, back_changed) = get_reference_difference(&second, &first);
    assert_eq!(named(&back_added), named(&removed));
    assert_eq!(named(&back_removed), named(&added));
    assert_eq!(back_changed.len(), 1);
    assert_eq!(back_changed[0].0.block_owner_deletion, Some(true));
    assert_eq!(back_changed[0].1.block_owner_deletion, Some(false));

    let (added, removed, changed) = get_reference_difference(&first, &first);
    assert!(added.is_empty() && removed.is_empty() && changed.is_empty());
}

#[test]
fn test_remove_dependent_from_owners() {
    let mut graph = GraphBuilder::new();
    let owner_ref = owner(ResourceKind::Deployment, "deploy1", 21, false);
    graph.nodes.push(Node::new(reference(ResourceKind::Deployment, "deploy1", 21, false), false));
    graph.uid_to_node_table.insert(21, 0);
    graph.nodes.push(Node::new(reference(ResourceKind::Pod, "pod1", 22, true), false));

    graph.add_dependent_to_owners(1, &vec![owner(ResourceKind::Deployment, "deploy1", 21, false)]);
    assert_eq!(graph.nodes[0].dependents_length(), 1);
    graph.remove_dependent_from_owners(1, &vec![owner_ref]);

    let owner_node = graph.uid_to_node_table.get(&21);
    assert!(owner_node.is_some());
    assert_eq!(graph.nodes[owner_node.unwrap()].dependents().len(), 0);
}

#[test]
fn deleting_an_owner_queues_its_dependents() {
    let mut graph = GraphBuilder::new();
    graph.process_graph_change(&added(ResourceKind::ReplicaSet, meta("rs", 1, vec![])));
    graph.process_graph_change(&added(
        ResourceKind::Pod,
        meta("pod", 2, vec![owner(ResourceKind::ReplicaSet, "rs", 1, true)]),
    ));
    assert!(graph.attempt_to_delete.is_empty());
    let pod = graph.uid_to_node_table.get(&2).unwrap();

    graph.process_graph_change(&GraphEvent::new_delete(GraphChangeEventInfo {
        kind: ResourceKind::ReplicaSet,
        meta: meta("rs", 1, vec![]),
    }));
    assert!(!graph.uid_to_node_table.contains_key(&1));
    assert!(graph.attempt_to_delete.contains(&pod));
}

#[test]
fn foreground_deletion_queues_dependents_before_the_object() {
    let mut graph = GraphBuilder::new();
    graph.process_graph_change(&added(ResourceKind::ReplicaSet, meta("rs", 1, vec![])));
    graph.process_graph_change(&added(
        ResourceKind::Pod,
        meta("pod", 2, vec![owner(ResourceKind::ReplicaSet, "rs", 1, true)]),
    ));
    let rs = graph.uid_to_node_table.get(&1).unwrap();
    let pod = graph.uid_to_node_table.get(&2).unwrap();
    let mut marked = meta("rs", 1, vec![]);
    marked.deletion_timestamp = Some(5);
    marked.finalizers = Some(vec![Finalizer::DeletingDependents]);
    graph.process_graph_change(&GraphEvent::new_update(
        GraphChangeEventInfo { kind: ResourceKind::ReplicaSet, meta: meta("rs", 1, vec![]) },
        GraphChangeEventInfo { kind: ResourceKind::ReplicaSet, meta: marked },
    ));
    assert!(graph.nodes[rs].is_deleting_dependents());
    let queue = &graph.attempt_to_delete;
    let first_pod = queue.iter().position(|n| *n == pod).unwrap();
    let first_rs = queue.iter().position(|n| *n == rs).unwrap();
    assert!(first_pod < first_rs);
    assert!(graph.attempt_to_orphan.is_empty());
}

#[test]
fn orphan_deletion_queues_the_object_alone() {
    let mut graph = GraphBuilder::new();
    graph.process_graph_change(&added(ResourceKind::ReplicaSet, meta("rs", 1, vec![])));
    graph.process_graph_change(&added(
        ResourceKind::Pod,
        meta("pod", 2, vec![owner(ResourceKind::ReplicaSet, "rs", 1, true)]),
    ));
    let rs = graph.uid_to_node_table.get(&1).unwrap();
    let mut marked = meta("rs", 1, vec![]);
    marked.deletion_timestamp = Some(5);
    marked.finalizers = Some(vec![Finalizer::OrphanDependents]);
    graph.process_graph_change(&GraphEvent::new_update(
        GraphChangeEventInfo { kind: ResourceKind::ReplicaSet, meta: meta("rs", 1, vec![]) },
        GraphChangeEventInfo { kind: ResourceKind::ReplicaSet, meta: marked },
    ));
    assert_eq!(graph.attempt_to_orphan, vec![rs]);
    assert!(graph.attempt_to_delete.is_empty());

    // The references of the dependents without the owner.
    let patches = graph.orphan_dependents(rs);
    assert_eq!(patches.len(), 1);
    assert_eq!(patches[0].0, graph.uid_to_node_table.get(&2).unwrap());
    assert!(patches[0].1.is_empty());
}

#[test]
fn unknown_owner_becomes_a_virtual_node() {
    let mut graph = GraphBuilder::new();
    graph.process_graph_change(&added(
        ResourceKind::Pod,
        meta("pod", 2, vec![owner(ResourceKind::ReplicaSet, "rs", 1, true)]),
    ));
    let rs = graph.uid_to_node_table.get(&1).unwrap();
    assert!(graph.nodes[rs].is_virtual());
    assert!(!graph.nodes[rs].is_observed());
    assert_eq!(graph.attempt_to_delete, vec![rs]);
    // It is looked at again as long as it has not been seen.
    assert!(graph.should_attempt(rs));
    assert!(graph.requeue_after(rs, AttemptOutcome::Done));
    assert!(!graph.requeue_after(rs, AttemptOutcome::SentVirtualDeleteEvent));
    // It is not in the store: the graph is told so.
    let wanted = graph.attempt_to_delete_item(rs).unwrap();
    assert_eq!(wanted.name, "rs");
    assert!(matches!(graph.item_was_read(rs, None), AfterRead::VirtualDelete(_)));
}

#[test]
fn owners_are_classified_by_their_state() {
    let owners = vec![
        owner(ResourceKind::ReplicaSet, "a", 1, true),
        owner(ResourceKind::ReplicaSet, "b", 2, true),
        owner(ResourceKind::ReplicaSet, "c", 3, true),
    ];
    let states = vec![OwnerState::Solid, OwnerState::Dangling, OwnerState::Waiting];
    let (solid, dangling, waiting) = classify_owners(&owners, &states);
    assert_eq!((solid.len(), dangling.len(), waiting.len()), (1, 1, 1));
    assert_eq!((solid[0].uid, dangling[0].uid, waiting[0].uid), (1, 2, 3));
}

#[test]
fn cascade_follows_the_owners() {
    let m = meta("pod", 9, vec![]);
    let solid = vec![owner(ResourceKind::ReplicaSet, "a", 1, true)];
    let gone = vec![owner(ResourceKind::ReplicaSet, "b", 2, true)];
    let none: Vec<OwnerReference> = vec![];
    assert!(matches!(
        decide_deletion(&solid, &none, &none, false, &m),
        DeleteDecision::Keep
    ));
    match decide_deletion(&solid, &gone, &none, false, &m) {
        DeleteDecision::PatchOwners(left) => {
            assert_eq!(left.len(), 1);
            assert_eq!(left[0].uid, 1);
        }
        other => panic!("{other:?}"),
    }
    assert!(matches!(
        decide_deletion(&none, &none, &gone, true, &m),
        DeleteDecision::UnblockAndDeleteForeground
    ));
    assert!(matches!(
        decide_deletion(&none, &gone, &none, false, &m),
        DeleteDecision::Delete(DeletePropagationPolicy::Background)
    ));
}

#[test]
fn absent_owners_are_remembered() {
    let mut cache = AbsentOwnerCache::new();
    let o = owner(ResourceKind::ReplicaSet, "rs", 1, true);
    let ns = "default".to_string();
    assert!(!owner_known_absent(&cache, &o, &ns));
    assert!(matches!(is_dangling_owner(&mut cache, &o, &ns, None), OwnerState::Dangling));
    assert!(owner_known_absent(&cache, &o, &ns));
    // An object of the same name that is another one does not count.
    let other = meta("rs", 2, vec![]);
    assert!(matches!(
        is_dangling_owner(&mut cache, &o, &ns, Some(&other)),
        OwnerState::Dangling
    ));
    let mut same = meta("rs", 1, vec![]);
    assert!(matches!(is_dangling_owner(&mut cache, &o, &ns, Some(&same)), OwnerState::Solid));
    same.deletion_timestamp = Some(1);
    same.finalizers = Some(vec![Finalizer::DeletingDependents]);
    assert!(matches!(is_dangling_owner(&mut cache, &o, &ns, Some(&same)), OwnerState::Waiting));
}

#[test]
fn absent_owner_cache_forgets_the_oldest() {
    let mut cache = AbsentOwnerCache::new();
    for i in 0..33u128 {
        cache.put(&reference(ResourceKind::Pod, "p", i, false));
    }
    assert!(!cache.contains(&reference(ResourceKind::Pod, "p", 0, false)));
    for i in 1..33u128 {
        assert!(cache.contains(&reference(ResourceKind::Pod, "p", i, false)));
    }
    assert!(!cache.contains(&reference(ResourceKind::Service, "p", 5, false)));
}

#[test]
fn finalizers_and_owner_references_are_edited() {
    let mut m = meta("pod", 1, vec![owner(ResourceKind::ReplicaSet, "a", 1, true)]);
    m.finalizers = Some(vec![Finalizer::OrphanDependents, Finalizer::DeletingDependents]);
    remove_finalizer(&mut m, Finalizer::OrphanDependents);
    assert_eq!(m.finalizers, Some(vec![Finalizer::DeletingDependents]));
    patch_new_owner_references(&mut m, vec![]);
    assert!(m.owner_references.map(|o| o.is_empty()).unwrap_or(true));
}

#[test]
fn node_table_finds_nodes_by_uid() {
    let mut t = UidToNodeTable::new();
    assert_eq!(t.get(&7), None);
    t.insert(7, 3);
    assert_eq!(t.get(&7), Some(3));
    assert_eq!(t.remove(&7), Some(3));
    assert!(!t.contains_key(&7));
}

#[test]
fn references_do_not_block_after_unblocking() {
    let mut graph = GraphBuilder::new();
    graph.process_graph_change(&added(ResourceKind::ReplicaSet, meta("rs", 1, vec![])));
    graph.process_graph_change(&added(
        ResourceKind::Pod,
        meta("pod", 2, vec![owner(ResourceKind::ReplicaSet, "rs", 1, true)]),
    ));
    let rs = graph.uid_to_node_table.get(&1).unwrap();
    assert_eq!(graph.nodes[rs].blocking_dependents(&graph.nodes).len(), 1);
    let patches = graph.unblock_dependents(rs);
    assert_eq!(patches.len(), 1);
    assert_eq!(patches[0].1[0].block_owner_deletion, Some(false));
    // A blocking dependent is deleted first; the owner waits.
    assert!(!graph.process_deleting_dependents(rs));
    assert!(graph.attempt_to_delete.contains(&graph.uid_to_node_table.get(&2).unwrap()));
}

#[test]
fn collector_watches_what_it_collects() {
    assert!(watch_resources().contains(&ResourceKind::Pod));
}

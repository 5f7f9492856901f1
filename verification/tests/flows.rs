use rks::controllers::garbage_collector::attempt::{Attempt, AttemptAction, StoreChange};
use rks::controllers::garbage_collector::graph_builder::{
    GraphBuilder, GraphChangeEventInfo, GraphEvent,
};
use rks::controllers::nft_worker::{NftAction, NftEvent, NftWork, RuleRetry};
use rks::controllers::nftrules_controller::NftablesController;
use rks::network::address::{Ipv4Addr, Ipv4Network, Ipv6Network};
use rks::network::backend::interface::{with_addresses, Interface};
use rks::network::cluster_ip::{
    cluster_ip_step, validate_and_allocate_cluster_ip, ClusterIpAction, ClusterIpEvent,
    ClusterIpFlow,
};
use rks::network::service_ip::{
    is_reserved_service_ip, Reservation, ServiceIpAllocator, ServiceIpError, ServiceIpRecord,
};
use rks::network::config::Config;
use rks::csi::volume::{CsiError, Volume, VolumeId};
use rks::node::bootstrap::{bootstrap, bootstrap_step, Bootstrap, BootstrapAction, BootstrapEvent};
use rks::node::dispatch::StoredService;
use rks::node::launch::{enqueue_create, launch_step, Launch, LaunchAction, LaunchEvent};
use rks::node::local_node::{local_step, parse_subnet_env, LocalStep};
use rks::node::register::Credentials;
use rks::node::registration::{
    register_worker, registration_step, Registration, RegistrationAction, RegistrationEvent,
};
use rks::node::service_flow::{
    apply_service, awaits_release, create_service, service_step, ServiceAction, ServiceEvent,
    ServiceFlow,
};
use rks::protocol::labels::LabelMap;
use rks::protocol::message::{IpAddr, RksMessage};
use rks::protocol::meta::{
    DeletePropagationPolicy, Finalizer, ObjectMeta, OwnerReference, ResourceKind,
};
use rks::protocol::node::{Node, NodeSpec, NodeStatus};
use rks::protocol::pod::{PodSpec, PodStatus, PodTask, PodVolume, RestartPolicy, VolumeSource};
use rks::protocol::service::{Endpoint, ServiceSpec, ServiceTask};

fn spec(ip: Option<&str>) -> ServiceSpec {
    ServiceSpec {
        service_type: "ClusterIP".to_string(),
        selector: None,
        ports: vec![],
        cluster_ip: ip.map(|s| s.to_string()),
    }
}

fn service(name: &str, ip: Option<&str>) -> ServiceTask {
    ServiceTask {
        api_version: "v1".to_string(),
        kind: "Service".to_string(),
        metadata: ObjectMeta::bare(name.to_string(), "default".to_string(), 4),
        spec: spec(ip),
    }
}

fn endpoint(name: &str) -> Endpoint {
    Endpoint {
        api_version: "v1".to_string(),
        kind: "Endpoints".to_string(),
        metadata: ObjectMeta::bare(name.to_string(), "default".to_string(), 6),
        subsets: vec![],
    }
}

fn net(text: &str) -> Ipv4Network {
    Ipv4Network::parse(text).unwrap()
}

fn replied(r: (ServiceFlow, ServiceAction)) -> String {
    assert!(matches!(r.0, ServiceFlow::Ended));
    match r.1 {
        ServiceAction::Reply(RksMessage::Ack) => "ok".to_string(),
        ServiceAction::Reply(RksMessage::Error(e)) => e,
        other => panic!("{other:?}"),
    }
}

#[test]
fn service_is_created_with_an_address() {
    let (st, action) = create_service(service("web", None), true, 7);
    assert!(matches!(action, ServiceAction::Allocate));
    let found = ServiceEvent::Allocated(Ok(spec(Some("10.96.0.9"))));
    let (st, action) = service_step(st, found, true, 7);
    assert!(matches!(action, ServiceAction::Insert));
    match &st {
        ServiceFlow::Inserting { svc, upsert: false } => {
            assert_eq!(svc.spec.cluster_ip.as_deref(), Some("10.96.0.9"));
            assert_eq!(svc.metadata.creation_timestamp, Some(7));
        }
        other => panic!("{other:?}"),
    }
    assert_eq!(replied(service_step(st, ServiceEvent::Inserted(true), true, 8)), "ok");

    let (st, _) = create_service(service("web", None), true, 7);
    let failed = ServiceEvent::Allocated(Err("full".to_string()));
    assert_eq!(
        replied(service_step(st, failed, true, 7)),
        "ClusterIP allocation failed: full"
    );
    let (st, action) = create_service(service("web", None), false, 7);
    assert!(matches!(action, ServiceAction::Insert));
    assert_eq!(
        replied(service_step(st, ServiceEvent::Inserted(false), false, 7)),
        "service \"web\" already exists"
    );
}

#[test]
fn lost_creation_gives_its_address_back() {
    for (existing, released) in [
        (StoredService::Found(service("web", Some("10.96.0.9"))), false),
        (StoredService::Found(service("web", Some("10.96.0.8"))), true),
        (StoredService::Unknown, true),
    ] {
        let (st, _) = create_service(service("web", Some("10.96.0.9")), true, 7);
        let found = ServiceEvent::Allocated(Ok(spec(Some("10.96.0.9"))));
        let (st, _) = service_step(st, found, true, 7);
        let (st, action) = service_step(st, ServiceEvent::Inserted(false), true, 7);
        assert!(matches!(action, ServiceAction::Compare));
        let (st, action) = service_step(st, ServiceEvent::Compared(existing), true, 7);
        assert_eq!(matches!(action, ServiceAction::Release), released);
        let end = match released {
            true => service_step(st, ServiceEvent::Released, true, 7),
            false => (st, action),
        };
        assert_eq!(replied(end), "service \"web\" already exists");
    }
}

#[test]
fn service_update_keeps_the_address() {
    let (st, action) = apply_service(service("web", None));
    assert!(matches!(action, ServiceAction::Read));
    let stored = ServiceEvent::Found(Some(service("web", Some("10.96.0.9"))));
    let (st, action) = service_step(st, stored, true, 7);
    assert!(matches!(action, ServiceAction::Allocate));
    match &st {
        ServiceFlow::Reallocating { name, desired, .. } => {
            assert_eq!(name, "web");
            assert_eq!(desired.cluster_ip.as_deref(), Some("10.96.0.9"));
        }
        other => panic!("{other:?}"),
    }
    let found = ServiceEvent::Allocated(Ok(spec(Some("10.96.0.9"))));
    let (st, action) = service_step(st, found, true, 7);
    assert!(matches!(action, ServiceAction::Write));
    assert_eq!(replied(service_step(st, ServiceEvent::Written, true, 7)), "ok");

    let (st, _) = apply_service(service("web", Some("10.96.0.7")));
    let stored = ServiceEvent::Found(Some(service("web", Some("10.96.0.9"))));
    assert_eq!(
        replied(service_step(st, stored, true, 7)),
        "Service update rejected: cluster_ip for service web cannot be modified: \
         old=Some(\"10.96.0.9\"), new=Some(\"10.96.0.7\")"
    );

    let (st, _) = apply_service(service("web", None));
    let (st, action) = service_step(st, ServiceEvent::Found(None), false, 7);
    assert!(matches!(action, ServiceAction::Insert));
    assert_eq!(
        replied(service_step(st, ServiceEvent::Inserted(false), false, 7)),
        "Service web was created concurrently, please retry apply"
    );
    assert!(awaits_release(true, &StoredService::Found(service("web", None))));
    assert!(!awaits_release(false, &StoredService::Found(service("web", None))));
    assert!(!awaits_release(true, &StoredService::Unknown));
}

fn given(r: (ClusterIpFlow, ClusterIpAction)) -> Result<Option<String>, String> {
    assert!(matches!(r.0, ClusterIpFlow::Ended));
    match r.1 {
        ClusterIpAction::Done(r) => r.map(|s| s.cluster_ip),
        other => panic!("{other:?}"),
    }
}

#[test]
fn address_is_searched_for() {
    let cidr = net("10.96.0.0/24");
    let al = ServiceIpAllocator::new(cidr, 2);
    let (mut st, mut action) = validate_and_allocate_cluster_ip(spec(None), Some(cidr), &al);
    let mut tried = 0;
    // Nothing is free until the linear probe, and then the third address is.
    let mut waits = vec![];
    loop {
        let event = match action {
            ClusterIpAction::Reserve(ip) => {
                assert!(cidr.contains(ip) && !is_reserved_service_ip(ip, cidr));
                if waits.len() == 2 {
                    tried += 1;
                }
                match tried {
                    3 => ClusterIpEvent::Tried(Reservation::Reserved),
                    _ => ClusterIpEvent::Tried(Reservation::AlreadyAllocated),
                }
            }
            ClusterIpAction::Wait(ms) => {
                waits.push(ms);
                ClusterIpEvent::Waited
            }
            ClusterIpAction::Done(found) => {
                let found = found.unwrap().cluster_ip.unwrap();
                assert!(cidr.contains(Ipv4Addr::parse(&found).unwrap()));
                break;
            }
            other => panic!("{other:?}"),
        };
        (st, action) = cluster_ip_step(&al, "default", "web", st, event);
    }
    assert_eq!(waits, vec![10, 20]);
    assert!(matches!(st, ClusterIpFlow::Ended));

    let (st, _) = validate_and_allocate_cluster_ip(spec(None), Some(cidr), &al);
    let failed = Reservation::Failed(ServiceIpError::XlineError("down".to_string()));
    assert_eq!(
        given(cluster_ip_step(&al, "default", "web", st, ClusterIpEvent::Tried(failed))),
        Err("failed to allocate Service IP".to_string())
    );
}

#[test]
fn wanted_address_is_checked() {
    let cidr = net("10.96.0.0/24");
    let al = ServiceIpAllocator::new(cidr, 2);
    let record = |name: &str| ServiceIpRecord {
        ip: Ipv4Addr::new(10, 96, 0, 9),
        service_namespace: "default".to_string(),
        service_name: name.to_string(),
        allocated_at: "then".to_string(),
    };
    let ask = |found| {
        let wanted = spec(Some("10.96.0.9"));
        let (st, action) = validate_and_allocate_cluster_ip(wanted, Some(cidr), &al);
        assert!(matches!(action, ClusterIpAction::LookUp(_)));
        cluster_ip_step(&al, "default", "web", st, ClusterIpEvent::LookedUp(found))
    };
    assert_eq!(given(ask(Ok(Some(record("web"))))), Ok(Some("10.96.0.9".to_string())));
    assert_eq!(
        given(ask(Ok(Some(record("db"))))),
        Err("cluster_ip 10.96.0.9 is already allocated to another service (default/db)".to_string())
    );
    assert_eq!(
        given(ask(Err(ServiceIpError::XlineError("down".to_string())))),
        Err("xline error: down".to_string())
    );
    let (st, action) = ask(Ok(None));
    assert!(matches!(action, ClusterIpAction::Reserve(_)));
    let taken = ClusterIpEvent::Tried(Reservation::AlreadyAllocated);
    assert_eq!(
        given(cluster_ip_step(&al, "default", "web", st, taken)),
        Err("failed to reserve cluster_ip 10.96.0.9".to_string())
    );
    assert_eq!(
        given(validate_and_allocate_cluster_ip(spec(Some("10.97.0.9")), Some(cidr), &al)),
        Err("cluster_ip 10.97.0.9 is outside Service CIDR range (10.96.0.0/24)".to_string())
    );
    assert_eq!(
        given(validate_and_allocate_cluster_ip(spec(Some("None")), None, &al)),
        Ok(Some("None".to_string()))
    );
}

fn payload(item: &str) -> String {
    format!("{{\"nftables\":[{{\"{item}\":1}}]}}")
}

fn update(action: NftAction) -> String {
    match action {
        NftAction::Send(RksMessage::UpdateNftablesRules(rules)) => rules,
        other => panic!("{other:?}"),
    }
}

#[test]
fn new_service_is_sent_and_noted() {
    let key = "web".to_string();
    let mut c = NftablesController::new();
    let (st, action) = c.work_on_service(
        "web",
        None,
        None,
        service("web", None),
        "s1".to_string(),
        None,
        "".to_string(),
    );
    assert!(matches!(action, NftAction::GenerateUpdate));
    let (st, action) = c.work_step(&key, st, NftEvent::Generated(payload("rule")));
    assert!(matches!(action, NftAction::ListServices));
    let all = vec![service("db", None), service("web", None)];
    let (st, action) = c.work_step(&key, st, NftEvent::Services(all));
    assert!(matches!(action, NftAction::GenerateDelta));
    match &st {
        NftWork::NewDelta { old, new, .. } => assert_eq!((old.len(), new.len()), (1, 2)),
        other => panic!("{other:?}"),
    }
    let (st, action) = c.work_step(&key, st, NftEvent::Generated(payload("delta")));
    assert_eq!(update(action), "{\"nftables\":[{\"rule\":1},{\"delta\":1}]}");
    let (_, action) = c.work_step(&key, st, NftEvent::Sent(vec![]));
    assert!(matches!(action, NftAction::Finish(true)));
    assert_eq!(c.snapshot("web"), ("s1".to_string(), "".to_string()));

    let again = |c: &NftablesController, text: &str, e: Option<Endpoint>, et: &str| {
        c.work_on_service(
            "web",
            Some(service("web", None)),
            None,
            service("web", None),
            text.to_string(),
            e,
            et.to_string(),
        )
    };
    let (_, action) = again(&c, "s1", None, "");
    assert!(matches!(action, NftAction::Finish(true)));
    let (_, action) = again(&c, "s1", None, "e1");
    assert!(matches!(action, NftAction::Finish(false)));
    let (st, action) = again(&c, "s1", Some(endpoint("web")), "e1");
    assert!(matches!(action, NftAction::GenerateDiff));
    let (st, action) = c.work_step(&key, st, NftEvent::Generated("diff".to_string()));
    assert_eq!(update(action), "diff");
    let (_, action) = c.work_step(&key, st, NftEvent::Sent(vec!["n1".to_string()]));
    assert!(matches!(action, NftAction::Finish(false)));
    assert!(c.out_of_sync.contains("n1"));
    assert_eq!(c.snapshot("web"), ("s1".to_string(), "".to_string()));
}

#[test]
fn deleted_service_is_cleaned_up() {
    let key = "web".to_string();
    let mut c = NftablesController::new();
    c.service_sent(key.clone(), "s1".to_string(), "".to_string());
    let (st, action) = c.work_on_deleted("web", Some(service("web", None)), None);
    assert!(matches!(action, NftAction::GenerateDelete));
    let (st, action) = c.work_step(&key, st, NftEvent::Generated(payload("gone")));
    assert!(matches!(action, NftAction::ListServices));
    let (st, _) = c.work_step(&key, st, NftEvent::Services(vec![service("db", None)]));
    match &st {
        NftWork::DeleteDelta { old, new, .. } => assert_eq!((old.len(), new.len()), (2, 1)),
        other => panic!("{other:?}"),
    }
    let (st, action) = c.work_step(&key, st, NftEvent::Generated(payload("delta")));
    assert_eq!(update(action), "{\"nftables\":[{\"delta\":1},{\"gone\":1}]}");
    let (_, action) = c.work_step(&key, st, NftEvent::Sent(vec![]));
    assert!(matches!(action, NftAction::Finish(true)));
    assert_eq!(c.snapshot("web"), ("".to_string(), "".to_string()));
}

#[test]
fn all_rules_are_sent_in_two_phases() {
    let key = "web".to_string();
    let mut c = NftablesController::new();
    let (st, action) = c.work_on_deleted("web", None, None);
    assert!(matches!(action, NftAction::ListAll));
    let lists = NftEvent::Lists { services: vec![], endpoints: vec![] };
    let (st, action) = c.work_step(&key, st, lists);
    assert!(matches!(action, NftAction::GenerateFull));
    let rules = NftEvent::FullGenerated {
        map_init: "maps".to_string(),
        full: "full".to_string(),
        discovery: "found".to_string(),
    };
    let (st, action) = c.work_step(&key, st, rules);
    match action {
        NftAction::SendTwoPhase {
            full: RksMessage::SetNftablesRules(full),
            map_init: RksMessage::SetNftablesRules(maps),
        } => assert_eq!((full.as_str(), maps.as_str()), ("full", "maps")),
        other => panic!("{other:?}"),
    }
    let sent = vec![("a".to_string(), true, true), ("b".to_string(), true, false)];
    let (st, action) = c.work_step(&key, st, NftEvent::TwoPhaseSent(sent));
    let failed = match action {
        NftAction::Refresh { message: RksMessage::UpdateNftablesRules(m), retry } => {
            assert_eq!(m, "found");
            retry
        }
        other => panic!("{other:?}"),
    };
    assert_eq!(failed, vec!["b"]);
    let (_, action) = c.work_step(&key, st, NftEvent::Sent(vec![]));
    assert!(matches!(action, NftAction::Finish(true)));

    let mut retry = RuleRetry::new(&failed);
    assert_eq!(retry.next(), Some((300, vec!["b".to_string()])));
    c.retry_results(&mut retry, &vec![("b".to_string(), true, true, false)]);
    assert!(c.out_of_sync.contains("b"));
    assert_eq!(retry.next(), Some((600, vec!["b".to_string()])));
    c.retry_results(&mut retry, &vec![("b".to_string(), true, true, true)]);
    assert!(!c.out_of_sync.contains("b"));
    assert_eq!(retry.next(), None);
}

#[test]
fn missed_messages_are_sent_again() {
    let mut c = NftablesController::new();
    assert!(!c.message_results(&vec!["a".to_string(), "b".to_string()]));
    assert_eq!(c.next_message_retry(0), Some(300));
    assert_eq!(c.message_targets().len(), 2);
    c.message_recovered(&vec!["a".to_string()]);
    assert_eq!(c.next_message_retry(1), Some(600));
    assert_eq!(c.message_targets(), vec!["b".to_string()]);
    assert_eq!(c.next_message_retry(3), None);
    c.message_recovered(&vec!["b".to_string()]);
    assert_eq!(c.next_message_retry(2), None);
}

#[test]
fn rules_that_cannot_be_merged_fail_the_work() {
    let key = "web".to_string();
    let mut c = NftablesController::new();
    let (st, _) = c.work_on_service(
        "web",
        None,
        None,
        service("web", None),
        "s1".to_string(),
        None,
        "".to_string(),
    );
    let (st, _) = c.work_step(&key, st, NftEvent::Generated("no json".to_string()));
    let (st, _) = c.work_step(&key, st, NftEvent::Services(vec![]));
    let (st, action) = c.work_step(&key, st, NftEvent::Generated(payload("delta")));
    assert!(matches!(action, NftAction::Finish(false)));
    assert!(matches!(st, NftWork::Ended));
    assert_eq!(c.snapshot("web").0, "");
}

fn owner(name: &str, uid: u128) -> OwnerReference {
    OwnerReference {
        api_version: "v1".to_string(),
        kind: ResourceKind::ReplicaSet,
        name: name.to_string(),
        uid,
        controller: true,
        block_owner_deletion: Some(true),
    }
}

fn meta(name: &str, uid: u128, owners: Vec<OwnerReference>) -> ObjectMeta {
    let mut m = ObjectMeta::bare(name.to_string(), "default".to_string(), uid);
    if !owners.is_empty() {
        m.owner_references = Some(owners);
    }
    m
}

fn graph_with(pod: ObjectMeta) -> (GraphBuilder, usize) {
    let uid = pod.uid;
    let mut graph = GraphBuilder::new();
    graph.process_graph_change(&GraphEvent::new_add(GraphChangeEventInfo {
        kind: ResourceKind::Pod,
        meta: pod,
    }));
    let node = graph.uid_to_node_table.get(&uid).unwrap();
    (graph, node)
}

fn changes(r: (Attempt, AttemptAction)) -> Vec<StoreChange> {
    assert!(matches!(r.0, Attempt::Ended));
    match r.1 {
        AttemptAction::Change(c) => c,
        other => panic!("{other:?}"),
    }
}

#[test]
fn item_without_owners_left_is_deleted() {
    let pod = || meta("pod", 2, vec![owner("rs", 1)]);
    let (mut graph, node) = graph_with(pod());
    let (st, action) = graph.begin_attempt(node);
    match action {
        AttemptAction::Read(id) => assert_eq!(id.name, "pod"),
        other => panic!("{other:?}"),
    }
    let (st, action) = graph.attempt_step(st, Some(pod()));
    match action {
        AttemptAction::Read(id) => assert_eq!((id.name.as_str(), id.uid), ("rs", 1)),
        other => panic!("{other:?}"),
    }
    match changes(graph.attempt_step(st, None)).as_slice() {
        [StoreChange::Delete { target, policy: DeletePropagationPolicy::Background }] => {
            assert_eq!(target.name, "pod")
        }
        other => panic!("{other:?}"),
    }
    // The owner is known to be absent now, and is not read again.
    let (st, _) = graph.begin_attempt(node);
    assert_eq!(changes(graph.attempt_step(st, Some(pod()))).len(), 1);
}

#[test]
fn item_with_a_solid_owner_stays() {
    let pod = || meta("pod", 2, vec![owner("rs", 1), owner("gone", 3)]);
    let (mut graph, node) = graph_with(pod());
    let (st, _) = graph.begin_attempt(node);
    let (st, _) = graph.attempt_step(st, Some(pod()));
    let (st, _) = graph.attempt_step(st, Some(meta("rs", 1, vec![])));
    match changes(graph.attempt_step(st, None)).as_slice() {
        [StoreChange::SetOwners { target, owners }] => {
            assert_eq!(target.name, "pod");
            assert_eq!(owners.len(), 1);
            assert_eq!(owners[0].name, "rs");
        }
        other => panic!("{other:?}"),
    }
}

#[test]
fn item_that_is_not_stored_is_gone() {
    let (mut graph, node) = graph_with(meta("pod", 2, vec![owner("rs", 1)]));
    for found in [None, Some(meta("pod", 9, vec![]))] {
        let (st, _) = graph.begin_attempt(node);
        match graph.attempt_step(st, found) {
            (Attempt::Ended, AttemptAction::Emit(e)) => {
                assert!(e.is_virtual);
                assert_eq!(e.new.meta.uid, 2);
            }
            other => panic!("{other:?}"),
        }
    }
    let (mut graph, node) = graph_with(meta("lone", 5, vec![]));
    let (st, _) = graph.begin_attempt(node);
    assert!(changes(graph.attempt_step(st, Some(meta("lone", 5, vec![])))).is_empty());
}

#[test]
fn waiting_item_loses_its_finalizer() {
    let mut pod = meta("rs", 2, vec![]);
    pod.deletion_timestamp = Some(1);
    pod.finalizers = Some(vec![Finalizer::DeletingDependents]);
    let (mut graph, node) = graph_with(pod);
    assert!(graph.nodes[node].is_deleting_dependents());
    let (st, _) = graph.begin_attempt(node);
    match changes(graph.attempt_step(st, Some(meta("rs", 2, vec![])))).as_slice() {
        [StoreChange::RemoveFinalizer { target, finalizer: Finalizer::DeletingDependents }] => {
            assert_eq!(target.uid, 2)
        }
        other => panic!("{other:?}"),
    }
}

fn worker(name: &str) -> Node {
    Node {
        api_version: "v1".to_string(),
        kind: "Node".to_string(),
        metadata: ObjectMeta::bare(name.to_string(), "default".to_string(), 5),
        spec: NodeSpec { pod_cidr: "".to_string(), taints: vec![] },
        status: NodeStatus {
            capacity: LabelMap::new(),
            allocatable: LabelMap::new(),
            addresses: vec![],
            conditions: vec![],
        },
    }
}

fn greeting(credentials: Credentials) -> (Registration, Vec<RksMessage>) {
    let from = IpAddr::V4(Ipv4Addr::new(10, 0, 0, 7));
    let (st, action) = register_worker(worker("w"), from);
    match action {
        RegistrationAction::Lease(attrs) => {
            assert_eq!(attrs.node_id, "w");
            assert_eq!(attrs.public_ip, Ipv4Addr::new(10, 0, 0, 7));
        }
        other => panic!("{other:?}"),
    }
    let leased = RegistrationEvent::Leased { subnet: net("10.1.2.0/24"), ipv6_subnet: None };
    let (st, action) = registration_step(st, leased);
    assert!(matches!(action, RegistrationAction::Store));
    match &st {
        Registration::Storing { node, .. } => assert_eq!(node.spec.pod_cidr, "10.1.2.0/24"),
        other => panic!("{other:?}"),
    }
    let (st, action) = registration_step(st, RegistrationEvent::Stored);
    assert!(matches!(action, RegistrationAction::Join));
    let gathered = RegistrationEvent::Gathered {
        full: Some("full".to_string()),
        maps: None,
        discovery: Some("found".to_string()),
        credentials,
    };
    match registration_step(st, gathered) {
        (st, RegistrationAction::Greet(messages)) => (st, messages),
        other => panic!("{other:?}"),
    }
}

#[test]
fn worker_registers_and_gets_its_network() {
    let (st, messages) = greeting(Credentials::NoVault);
    assert_eq!(messages.len(), 3);
    assert!(matches!(&messages[0], RksMessage::SetNftablesRules(r) if r == "full"));
    assert!(matches!(&messages[1], RksMessage::UpdateNftablesRules(r) if r == "found"));
    assert!(matches!(&messages[2], RksMessage::SetRegistryCredentials(c) if c.is_empty()));
    let (st, action) = registration_step(st, RegistrationEvent::Greeted(true));
    assert!(matches!(action, RegistrationAction::ReadNetwork));
    let mut config = Config::default();
    config.enable_ipv4 = true;
    config.network = Some(net("10.1.0.0/16"));
    match registration_step(st, RegistrationEvent::Network(config)) {
        (Registration::Ended, RegistrationAction::Configure(RksMessage::SetNetwork(c))) => {
            assert_eq!(c.node_id, "w");
            assert_eq!(
                c.subnet_env,
                "RKL_NETWORK=10.1.0.0/16\nRKL_SUBNET=10.1.2.0/24\nRKL_IPMASQ=false\n"
            );
        }
        other => panic!("{other:?}"),
    }
}

#[test]
fn worker_that_cannot_be_told_leaves() {
    let (st, messages) = greeting(Credentials::Unreadable);
    assert_eq!(messages.len(), 2);
    let (st, action) = registration_step(st, RegistrationEvent::Greeted(false));
    assert!(matches!((st, action), (Registration::Ended, RegistrationAction::Leave)));
    let from = IpAddr::V4(Ipv4Addr::new(10, 0, 0, 7));
    match register_worker(worker(""), from) {
        (Registration::Ended, RegistrationAction::Refuse(RksMessage::Error(e))) => {
            assert_eq!(e, "invalid node: metadata.name is empty")
        }
        other => panic!("{other:?}"),
    }
    let from = IpAddr::V4(Ipv4Addr::new(10, 0, 0, 7));
    let (st, _) = register_worker(worker("w"), from);
    match registration_step(st, RegistrationEvent::Failed("no lease".to_string())) {
        (Registration::Ended, RegistrationAction::Fail(e)) => assert_eq!(e, "no lease"),
        other => panic!("{other:?}"),
    }
}

fn dual_stack() -> Config {
    let mut config = Config::default();
    config.enable_ipv4 = true;
    config.enable_ipv6 = true;
    config.network = Some(net("10.1.0.0/16"));
    config.ipv6_network = Ipv6Network::parse("fd00::/48");
    config.backend_type = "hostgw".to_string();
    config
}

fn looking() -> Bootstrap {
    let (st, action) = bootstrap("n".to_string());
    assert!(matches!(action, BootstrapAction::ReadNetwork));
    let (st, action) = bootstrap_step(st, BootstrapEvent::Network(dual_stack()));
    assert!(matches!(
        action,
        BootstrapAction::FindInterface { enable_ipv4: true, enable_ipv6: true }
    ));
    st
}

fn leasing() -> Bootstrap {
    let iface = with_addresses(
        Interface { name: "eth0".to_string(), index: 1, mtu: None },
        &vec![Ipv4Addr::new(10, 0, 0, 5)],
        &vec![],
    );
    match bootstrap_step(looking(), BootstrapEvent::Interface(iface)) {
        (st, BootstrapAction::Lease(attrs)) => {
            assert_eq!(attrs.public_ip, Ipv4Addr::new(10, 0, 0, 5));
            assert_eq!(attrs.node_id, "n");
            assert_eq!(attrs.backend_type, "hostgw");
            st
        }
        other => panic!("{other:?}"),
    }
}

#[test]
fn local_node_applies_the_subnet_that_it_leased() {
    let leased = BootstrapEvent::Leased {
        subnet: net("10.1.7.0/24"),
        ipv6_subnet: Ipv6Network::parse("fd00:0:0:7::/64"),
    };
    let (st, action) = bootstrap_step(leasing(), leased);
    assert!(matches!(action, BootstrapAction::Join));
    let message = match bootstrap_step(st, BootstrapEvent::Joined) {
        (Bootstrap::Ended, BootstrapAction::Configure(message)) => message,
        other => panic!("{other:?}"),
    };
    match local_step("n", message) {
        LocalStep::ApplySubnet(env) => {
            assert_eq!(
                env,
                "RKL_NETWORK=10.1.0.0/16\nRKL_SUBNET=10.1.7.0/24\n\
                 RKL_IPV6_NETWORK=fd00::/48\nRKL_IPV6_SUBNET=fd00:0:0:7::/64\nRKL_IPMASQ=false\n"
            );
            let settings = parse_subnet_env(&env).unwrap();
            assert_eq!(settings.subnet, net("10.1.7.0/24"));
            assert!(!settings.ip_masq);
            assert_eq!(settings.mtu, 1500);
        }
        other => panic!("{other:?}"),
    }
}

#[test]
fn local_node_that_fails_says_what_was_tried() {
    let failed = || BootstrapEvent::Failed("x".to_string());
    let (reading, _) = bootstrap("n".to_string());
    let leased = BootstrapEvent::Leased { subnet: net("10.1.7.0/24"), ipv6_subnet: None };
    let mut unset = dual_stack();
    unset.network = None;
    let (st, _) = bootstrap_step(leasing(), leased);
    let joining = match st {
        Bootstrap::Joining { id, subnet, ipv6_subnet, .. } => {
            Bootstrap::Joining { id, config: unset, subnet, ipv6_subnet }
        }
        other => panic!("{other:?}"),
    };
    for (st, event, expected) in [
        (reading, failed(), "failed to fetch network config for local rks node: x"),
        (
            looking(),
            BootstrapEvent::NoStack("x".to_string()),
            "failed to determine local rks node IP stack: x",
        ),
        (looking(), failed(), "failed to discover external interface for local rks node: x"),
        (leasing(), failed(), "failed to acquire lease for local rks node n: x"),
        (
            joining,
            BootstrapEvent::Joined,
            "failed to build network config payload for n: IPv4 network config missing",
        ),
    ] {
        match bootstrap_step(st, event) {
            (Bootstrap::Ended, BootstrapAction::Fail(m)) => assert_eq!(m, expected),
            other => panic!("{other:?}"),
        }
    }
}

fn pod(volumes: &[&str]) -> PodTask {
    let volumes = volumes.iter().map(|name| PodVolume {
        name: name.to_string(),
        source: VolumeSource::SlayerFs { capacity_bytes: Some(9), config: None },
    });
    PodTask {
        api_version: "v1".to_string(),
        kind: "Pod".to_string(),
        metadata: ObjectMeta::bare("p".to_string(), "default".to_string(), 1),
        spec: PodSpec {
            node_name: Some("n".to_string()),
            containers: vec![],
            init_containers: vec![],
            restart_policy: RestartPolicy::Always,
            volumes: volumes.collect(),
            rest: String::new(),
        },
        status: PodStatus::fresh(),
    }
}

fn volume(id: &str) -> LaunchEvent {
    LaunchEvent::Provisioned(Ok(Volume {
        volume_id: VolumeId(id.to_string()),
        capacity_bytes: 9,
        parameters: LabelMap::new(),
        volume_context: LabelMap::new(),
        accessible_topology: vec![],
    }))
}

#[test]
fn pod_goes_out_after_its_volumes() {
    let (st, action) = enqueue_create(pod(&["a", "b"]), "n");
    assert!(matches!(action, LaunchAction::Provision));
    match &st {
        Launch::Provisioning { wishes, at: 0, .. } => assert_eq!(wishes[0].request.name, "p-a"),
        other => panic!("{other:?}"),
    }
    let (st, action) = launch_step(st, "n", volume("v1"));
    assert!(matches!(action, LaunchAction::Provision));
    let (st, action) = launch_step(st, "n", volume("v2"));
    assert!(matches!(action, LaunchAction::Store));
    match launch_step(st, "n", LaunchEvent::Stored) {
        (Launch::Ended, LaunchAction::Send(RksMessage::CreatePod(p))) => {
            assert_eq!(p.metadata.annotations.get("csi.rk8s.io/a").unwrap(), "v1");
            assert_eq!(p.metadata.annotations.get("csi.rk8s.io/b").unwrap(), "v2");
        }
        other => panic!("{other:?}"),
    }
    let (_, action) = enqueue_create(pod(&[]), "n");
    assert!(matches!(action, LaunchAction::Send(RksMessage::CreatePod(_))));
    let (_, action) = enqueue_create(pod(&[]), "m");
    assert!(matches!(action, LaunchAction::Nothing));
    let (st, _) = enqueue_create(pod(&["a"]), "n");
    let failed = LaunchEvent::Provisioned(Err(CsiError::Internal("full".to_string())));
    let (_, action) = launch_step(st, "n", failed);
    assert!(matches!(action, LaunchAction::Fail(CsiError::Internal(_))));
}

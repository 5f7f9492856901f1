use rks::commands::create::{serialization_failed, user_create, watch_create};
use rks::commands::delete::watch_delete;
use rks::csi::volume::{CsiMessage, VolumeId};
use rks::network::address::{Ipv4Addr, Ipv4Network};
use rks::network::backend::interface::{with_addresses, Interface};
use rks::network::config::Config;
use rks::node::dispatch::{
    allocation_failed, log_forward_failed, log_node_missing, reallocation_failed, service_created,
    service_to_store, service_upserted, should_release, show_service, StoredService,
};
use rks::node::dispatch::{
    create_replicaset, desired_service_spec, dispatch_user, dispatch_worker, find_pod, forward_log,
    log_key, log_node, poll_deletion, set_pod_ip, show_deployments, show_pod, show_pods,
    show_replicasets, show_services, update_pod_status, update_service, validate_service_spec,
    PollStep, Presence, UserStep, WorkerStep,
};
use rks::node::heartbeat::{
    check_heartbeat, convert_conditions_to_taints, evict_pods_for_node, handle_heartbeat, is_expired,
};
use rks::node::lease_sync::{calculate_routes_for_node, process_results, LeaseRoutes};
use rks::node::local_node::{
    apply_routes, local_lease_attrs, local_step, parse_subnet_env, resolve_local_node_id,
    sanitize_node_suffix, LocalStep,
};
use rks::node::register::{
    build_node_network_config, initial_credentials, initial_rules, no_worker, node_to_store,
    worker_id, worker_lease_attrs, Credentials,
};
use rks::node::report_flow::{begin_report, report_step, ReportAction, ReportEvent, ReportFlow};
use rks::node::registry::{build_delete_table_ruleset, LogResponseRegistry, NodeRegistry};
use rks::node::server::{classify_connection, is_verified, sign_request, Admission, Client};
use rks::node::watcher::{
    csi_volume_annotation_key, deleted_pod_name, handle_put_event, is_assigned_to, note_volume,
    volume_removals, volume_wishes,
};
use rks::protocol::labels::LabelMap;
use rks::protocol::message::{IpAddr, IpNetwork, LogRequest, NodeNetworkConfig, RksMessage, Route};
use rks::protocol::meta::{ObjectMeta, ResourceKind};
use rks::protocol::node::{
    Node, NodeCondition, NodeConditionType, NodeSpec, NodeStatus, Taint, TaintEffect, TaintKey,
};
use rks::protocol::pod::{
    PodPhase, PodSpec, PodStatus, PodTask, PodTemplateSpec, PodVolume, RestartPolicy, VolumeSource,
};
use rks::protocol::service::{ServiceSpec, ServiceTask};
use rks::vault::{IssueCertificateRequest, RegistryCredential};
use rks::protocol::workload::{
    ConditionStatus, LabelSelector, ReplicaSet, ReplicaSetSpec, ReplicaSetStatus,
};

fn pod(name: &str, uid: u128, node: Option<&str>) -> PodTask {
    PodTask {
        api_version: "v1".to_string(),
        kind: "Pod".to_string(),
        metadata: ObjectMeta::bare(name.to_string(), "default".to_string(), uid),
        spec: PodSpec {
            node_name: node.map(|s| s.to_string()),
            containers: vec![],
            init_containers: vec![],
            restart_policy: RestartPolicy::Always,
            volumes: vec![],
            rest: String::new(),
        },
        status: PodStatus::fresh(),
    }
}

fn service(service_type: &str, ip: Option<&str>) -> ServiceTask {
    ServiceTask {
        api_version: "v1".to_string(),
        kind: "Service".to_string(),
        metadata: ObjectMeta::bare("web".to_string(), "default".to_string(), 4),
        spec: spec(service_type, ip),
    }
}

fn spec(service_type: &str, ip: Option<&str>) -> ServiceSpec {
    ServiceSpec {
        service_type: service_type.to_string(),
        selector: None,
        ports: vec![],
        cluster_ip: ip.map(|s| s.to_string()),
    }
}

fn condition(condition_type: NodeConditionType, status: ConditionStatus, time: Option<&str>) -> NodeCondition {
    NodeCondition { condition_type, status, last_heartbeat_time: time.map(|s| s.to_string()) }
}

fn node(name: &str, conditions: Vec<NodeCondition>) -> Node {
    Node {
        api_version: "v1".to_string(),
        kind: "Node".to_string(),
        metadata: ObjectMeta::bare(name.to_string(), "default".to_string(), 5),
        spec: NodeSpec { pod_cidr: "".to_string(), taints: vec![] },
        status: NodeStatus {
            capacity: LabelMap::new(),
            allocatable: LabelMap::new(),
            addresses: vec![],
            conditions,
        },
    }
}

fn net(text: &str) -> Ipv4Network {
    Ipv4Network::parse(text).unwrap()
}

fn log_request() -> LogRequest {
    LogRequest {
        pod_name: "p".to_string(),
        namespace: "ns".to_string(),
        container_name: None,
        follow: false,
        tail_lines: None,
        since_time: None,
        timestamps: false,
        previous: false,
    }
}

#[test]
fn reports_of_workers_are_taken() {
    let beat = |name: &str| WorkerStep::Heartbeat {
        node_name: name.to_string(),
        status: node(name, vec![condition(NodeConditionType::Ready, ConditionStatus::True, None)])
            .status,
    };
    let now = || "2023-11-14T22:13:20+00:00".to_string();
    let (st, action) = begin_report(beat("n")).unwrap();
    assert!(matches!(action, ReportAction::ReadNode(n) if n == "n"));
    let stored = node("n", vec![]);
    let (st, action) = report_step(st, ReportEvent::Node(Some(stored)), now());
    match action {
        ReportAction::PutNode(name, n) => {
            assert_eq!(name, "n");
            assert_eq!(n.status.conditions[0].last_heartbeat_time, Some(now()));
        }
        other => panic!("{other:?}"),
    }
    let ack = |r: (ReportFlow, ReportAction)| {
        matches!(r, (ReportFlow::Ended, ReportAction::Reply(RksMessage::Ack)))
    };
    assert!(ack(report_step(st, ReportEvent::Written, now())));
    // The heartbeat of an unknown node is acknowledged too.
    let (st, _) = begin_report(beat("m")).unwrap();
    assert!(ack(report_step(st, ReportEvent::Node(None), now())));
    let (st, _) = begin_report(beat("m")).unwrap();
    match report_step(st, ReportEvent::Failed("gone".to_string()), now()) {
        (ReportFlow::Ended, ReportAction::Fail(e)) => assert_eq!(e, "gone"),
        other => panic!("{other:?}"),
    }

    let address = || WorkerStep::SetPodIp {
        pod_name: "p".to_string(),
        pod_ip: "10.0.0.9".to_string(),
    };
    let (st, action) = begin_report(address()).unwrap();
    assert!(matches!(action, ReportAction::ReadPod(n) if n == "p"));
    match report_step(st, ReportEvent::Pod(Some(pod("p", 1, None))), now()) {
        (st, ReportAction::PutPod(name, p)) => {
            assert_eq!((name.as_str(), p.status.pod_ip.as_deref()), ("p", Some("10.0.0.9")));
            let ended = report_step(st, ReportEvent::Written, now());
            assert!(matches!(ended, (ReportFlow::Ended, ReportAction::Nothing)));
        }
        other => panic!("{other:?}"),
    }
    let (st, _) = begin_report(address()).unwrap();
    let ended = report_step(st, ReportEvent::Pod(None), now());
    assert!(matches!(ended, (ReportFlow::Ended, ReportAction::Nothing)));
    assert!(matches!(begin_report(WorkerStep::Note), Err(WorkerStep::Note)));
}

#[test]
fn lists_are_shown_whole() {
    let names = |m: RksMessage| match m {
        RksMessage::ListPodRes(pods) => pods.into_iter().map(|p| p.metadata.name).collect(),
        other => panic!("{other:?}"),
    };
    let all: Vec<String> = names(show_pods(vec![pod("a", 1, None), pod("b", 2, None)]));
    assert_eq!(all, ["a", "b"]);
    assert!(matches!(show_replicasets(vec![]), RksMessage::ListReplicaSetRes(v) if v.is_empty()));
    assert!(matches!(show_deployments(vec![]), RksMessage::ListDeploymentRes(v) if v.is_empty()));
    match show_services(vec![service("ClusterIP", None)]) {
        RksMessage::ListServiceRes(v) => assert_eq!(v.len(), 1),
        other => panic!("{other:?}"),
    }
}

fn error_of(m: RksMessage) -> String {
    match m {
        RksMessage::Error(e) => e,
        other => panic!("{other:?}"),
    }
}

#[test]
fn user_requests_are_dispatched() {
    assert!(matches!(
        dispatch_user(RksMessage::CreatePod(pod("p", 1, None))),
        UserStep::CreatePod(_)
    ));
    assert!(matches!(
        dispatch_user(RksMessage::ListDeployment),
        UserStep::List(ResourceKind::Deployment)
    ));
    assert!(matches!(
        dispatch_user(RksMessage::GetPod("p".to_string())),
        UserStep::Show(ResourceKind::Pod, _)
    ));
    assert!(matches!(
        dispatch_user(RksMessage::CreateService(service("ClusterIP", None))),
        UserStep::CreateService(_)
    ));
    match dispatch_user(RksMessage::CreateService(service("ClusterIP", Some("bad")))) {
        UserStep::Reply(m) => assert_eq!(
            error_of(m),
            "Service validation failed: invalid cluster_ip format: bad"
        ),
        other => panic!("{other:?}"),
    }
    assert!(validate_service_spec(&spec("NodePort", Some("bad"))).is_ok());
    assert!(validate_service_spec(&spec("ClusterIP", Some(" none "))).is_ok());
}

#[test]
fn pods_are_found_by_uid() {
    let pods = vec![pod("a", 1, None), pod("b", 2, None)];
    match find_pod(pods, 2) {
        RksMessage::GetPodByUidRes(p) => assert_eq!(p.metadata.name, "b"),
        other => panic!("{other:?}"),
    }
    assert!(matches!(find_pod(vec![], 2), RksMessage::Error(_)));
    assert!(matches!(show_pod("p", Some(pod("p", 1, None))), RksMessage::GetPodRes(_)));
    assert!(matches!(show_pod("p", None), RksMessage::Error(_)));
}

#[test]
fn existing_objects_are_not_created_again() {
    let rs = || ReplicaSet {
        api_version: "v1".to_string(),
        kind: "ReplicaSet".to_string(),
        metadata: ObjectMeta::bare("web".to_string(), "default".to_string(), 1),
        spec: ReplicaSetSpec {
            replicas: 1,
            selector: LabelSelector { match_labels: LabelMap::new(), match_expressions: vec![] },
            template: PodTemplateSpec {
                metadata: ObjectMeta::bare("".to_string(), "default".to_string(), 0),
                spec: pod("x", 1, None).spec,
            },
        },
        status: ReplicaSetStatus {
            replicas: 0,
            fully_labeled_replicas: 0,
            ready_replicas: 0,
            available_replicas: 0,
        },
    };
    assert!(create_replicaset(rs(), true, 9).is_err());
    let stored = create_replicaset(rs(), false, 9).unwrap();
    assert_eq!(stored.metadata.creation_timestamp, Some(9));
    assert!(user_create(pod("p", 1, None), false, 9).is_ok());
    assert!(user_create(pod("p", 1, None), true, 9).is_err());
    assert!(error_of(serialization_failed("x")).contains('x'));
}

#[test]
fn service_updates_keep_the_address() {
    let desired = desired_service_spec("web", &spec("ClusterIP", Some("10.96.0.9")), spec("ClusterIP", None)).unwrap();
    assert_eq!(desired.cluster_ip.as_deref(), Some("10.96.0.9"));
    assert!(desired_service_spec(
        "web",
        &spec("ClusterIP", Some("10.96.0.9")),
        spec("ClusterIP", Some("10.96.0.10"))
    )
    .is_err());
    let updated = update_service(service("ClusterIP", Some("10.96.0.9")), spec("ClusterIP", Some("10.96.0.9")));
    assert_eq!(updated.spec.cluster_ip.as_deref(), Some("10.96.0.9"));
}

#[test]
fn deletions_are_awaited() {
    assert!(matches!(poll_deletion(0, Presence::Gone), PollStep::Release));
    assert!(matches!(poll_deletion(0, Presence::There), PollStep::WaitAndLook));
    assert!(matches!(poll_deletion(299, Presence::There), PollStep::GiveUp));
}

#[test]
fn reported_status_keeps_the_address() {
    let mut p = pod("p", 1, Some("n"));
    set_pod_ip(&mut p, "10.0.0.7".to_string());
    let reported = PodStatus { phase: PodPhase::Running, pod_ip: None, message: None };
    let p = update_pod_status(Some(p), "p", "default", reported).unwrap();
    assert_eq!(p.status.pod_ip.as_deref(), Some("10.0.0.7"));
    assert_eq!(p.status.phase, PodPhase::Running);
    assert!(update_pod_status(None, "p", "default", PodStatus::fresh()).is_err());
}

#[test]
fn logs_go_through_the_worker() {
    let r = log_request();
    assert_eq!(log_node(&r, &Some(pod("p", 1, Some("n1")))).unwrap(), "n1");
    assert!(log_node(&r, &None).is_err());
    assert!(log_node(&r, &Some(pod("p", 1, None))).is_err());
    let chunk = |is_final: bool| {
        Some(RksMessage::PodLogsChunk {
            namespace: "ns".to_string(),
            pod_name: "p".to_string(),
            data: vec![1],
            is_final,
        })
    };
    assert!(matches!(forward_log(&r, chunk(false)), (Some(_), false)));
    assert!(matches!(forward_log(&r, chunk(true)), (Some(_), true)));
    assert_ne!(log_key("a", "b"), log_key("a", "c"));
}

#[test]
fn worker_messages_are_dispatched() {
    match dispatch_worker(RksMessage::SetPodip(("p".to_string(), "10.0.0.1".to_string()))) {
        WorkerStep::SetPodIp { pod_name, pod_ip } => {
            assert_eq!((pod_name.as_str(), pod_ip.as_str()), ("p", "10.0.0.1"))
        }
        other => panic!("{other:?}"),
    }
    assert!(matches!(dispatch_worker(RksMessage::Ack), WorkerStep::Note));
    let answer = RksMessage::CsiResponse { id: 7, message: CsiMessage::Done };
    assert!(matches!(
        dispatch_worker(answer),
        WorkerStep::RouteResponse { id: 7, message: CsiMessage::Done }
    ));
    let question = RksMessage::CsiRequest { id: 7, message: CsiMessage::Done };
    assert!(matches!(dispatch_worker(question), WorkerStep::Note));
}

#[test]
fn conditions_become_taints() {
    let taints = convert_conditions_to_taints(&vec![
        condition(NodeConditionType::Ready, ConditionStatus::Unknown, None),
        condition(NodeConditionType::DiskPressure, ConditionStatus::True, None),
        condition(NodeConditionType::MemoryPressure, ConditionStatus::False, None),
    ]);
    assert_eq!(
        taints,
        vec![
            Taint { key: TaintKey::NodeNotReady, effect: TaintEffect::NoExecute },
            Taint { key: TaintKey::NodeDiskPressure, effect: TaintEffect::NoSchedule },
        ]
    );
}

#[test]
fn silent_nodes_are_given_up() {
    let mut n = node("n", vec![]);
    let status = NodeStatus {
        capacity: LabelMap::new(),
        allocatable: LabelMap::new(),
        addresses: vec![],
        conditions: vec![condition(NodeConditionType::Ready, ConditionStatus::True, None)],
    };
    handle_heartbeat(&mut n, status, "2023-11-14T22:13:20+00:00".to_string());
    assert!(n.spec.taints.is_empty());
    assert_eq!(
        n.status.conditions[0].last_heartbeat_time.as_deref(),
        Some("2023-11-14T22:13:20+00:00")
    );
    assert!(!check_heartbeat(&mut n, 50, 1_700_000_040, 0));
    assert!(check_heartbeat(&mut n, 50, 1_700_000_060, 0));
    assert_eq!(n.spec.taints[0].key, TaintKey::NodeNotReady);
    assert!(is_expired(Some(50_000_000_001), 50));
    assert!(!is_expired(Some(50_000_000_000), 50));
    let pods = vec![
        (pod("a", 1, Some("n")), false),
        (pod("b", 2, Some("n")), true),
        (pod("c", 3, Some("m")), false),
        (pod("d", 4, None), false),
        (pod("e", 5, Some("n")), false),
    ];
    assert_eq!(evict_pods_for_node("n", &pods), vec!["a".to_string(), "e".to_string()]);
}

fn route(dst: &str) -> Route {
    Route {
        dst: Some(IpNetwork::V4(net(dst))),
        gateway: Some(IpAddr::V4(Ipv4Addr::new(10, 0, 0, 1))),
        oif_index: None,
    }
}

#[test]
fn routes_lead_to_the_other_nodes() {
    let leases = vec![
        LeaseRoutes { node_id: "a".to_string(), v4: Some(route("10.1.1.0/24")), v6: None },
        LeaseRoutes { node_id: "b".to_string(), v4: Some(route("10.1.2.0/24")), v6: None },
    ];
    let for_a = calculate_routes_for_node("a", &leases);
    assert_eq!(for_a.len(), 1);
    assert_eq!(for_a[0].dst, Some(IpNetwork::V4(net("10.1.2.0/24"))));
    assert_eq!(process_results(&leases).len(), 2);

    let plan = apply_routes(
        &vec![route("10.1.1.0/24"), route("10.1.1.0/24")],
        &vec![route("10.1.1.0/24"), route("10.1.9.0/24")],
    );
    assert_eq!(plan.desired.len(), 1);
    assert_eq!(plan.remove.len(), 1);
}

fn network_config() -> Config {
    Config {
        enable_ipv4: true,
        enable_ipv6: false,
        enable_nftables: false,
        network: Some(net("10.1.0.0/16")),
        ipv6_network: None,
        subnet_min: None,
        subnet_max: None,
        ipv6_subnet_min: None,
        ipv6_subnet_max: None,
        subnet_len: 24,
        ipv6_subnet_len: 0,
        backend_type: "hostgw".to_string(),
    }
}

#[test]
fn subnet_settings_are_read_back() {
    let c = build_node_network_config("n".to_string(), &network_config(), true, Some(net("10.1.7.0/24")), None).unwrap();
    assert_eq!(
        c.subnet_env,
        "RKL_NETWORK=10.1.0.0/16\nRKL_SUBNET=10.1.7.0/24\nRKL_IPMASQ=true\n"
    );
    let env = parse_subnet_env(&c.subnet_env).unwrap();
    assert_eq!((env.subnet, env.ip_masq, env.mtu), (net("10.1.7.0/24"), true, 1500));
    let missing = Config { network: None, ..network_config() };
    assert_eq!(
        build_node_network_config("n".to_string(), &missing, true, Some(net("10.1.7.0/24")), None).unwrap_err(),
        "IPv4 network config missing"
    );
    assert!(parse_subnet_env("RKL_IPMASQ=true").is_err());
    assert!(parse_subnet_env("RKL_SUBNET=x").is_err());
}

#[test]
fn local_node_takes_its_own_messages() {
    let msg = |id: &str| {
        RksMessage::SetNetwork(NodeNetworkConfig { node_id: id.to_string(), subnet_env: "e".to_string() })
    };
    assert!(matches!(local_step("n", msg("n")), LocalStep::ApplySubnet(_)));
    assert!(matches!(local_step("n", msg("m")), LocalStep::Ignore));
    assert!(matches!(
        local_step("n", RksMessage::UpdateRoutes("n".to_string(), vec![])),
        LocalStep::ApplyRoutes(_)
    ));
    assert_eq!(sanitize_node_suffix("--10.0.0.1:5--"), "10-0-0-1-5");
    assert_eq!(sanitize_node_suffix("::"), "node");
    assert_eq!(resolve_local_node_id(Some("n".to_string()), None, "a"), "n");
    assert_eq!(resolve_local_node_id(Some(" ".to_string()), Some("h".to_string()), "a"), "rks-h");
    assert_eq!(resolve_local_node_id(None, None, "0.0.0.0:50051"), "rks-0-0-0-0-50051");
    let iface = with_addresses(
        Interface { name: "eth0".to_string(), index: 1, mtu: None },
        &vec![Ipv4Addr::new(10, 0, 0, 5)],
        &vec![],
    );
    let attrs = local_lease_attrs(&iface, "hostgw".to_string(), "n".to_string());
    assert_eq!(attrs.public_ip, Ipv4Addr::new(10, 0, 0, 5));
    assert_eq!(attrs.node_id, "n");
}

#[test]
fn workers_register() {
    assert_eq!(worker_id(&node("n", vec![])).unwrap(), "n");
    assert_eq!(
        error_of(worker_id(&node("", vec![])).unwrap_err()),
        "invalid node: metadata.name is empty"
    );
    assert_eq!(node_to_store(node("n", vec![]), net("10.1.7.0/24")).spec.pod_cidr, "10.1.7.0/24");
    assert_eq!(no_worker("n"), "No active worker for n");
    assert_eq!(
        worker_lease_attrs("n".to_string(), IpAddr::V4(Ipv4Addr::new(1, 2, 3, 4))).public_ip,
        Ipv4Addr::new(1, 2, 3, 4)
    );
    assert!(initial_rules(None, Some("m".to_string()), None).is_empty());
    assert_eq!(
        initial_rules(Some("f".to_string()), Some("m".to_string()), Some("d".to_string())).len(),
        3
    );
    let told = |read: Credentials| match initial_credentials(read) {
        Some(RksMessage::SetRegistryCredentials(c)) => Some(c.len()),
        _ => None,
    };
    assert_eq!(told(Credentials::NoVault), Some(0));
    let stored = RegistryCredential { registry: "r".to_string(), pat: "p".to_string() };
    assert_eq!(told(Credentials::Listed(vec![stored])), Some(1));
    assert_eq!(told(Credentials::Unreadable), None);
}

#[test]
fn newer_sessions_stay() {
    let mut r = NodeRegistry::new();
    r.register("n".to_string(), 1);
    r.register("n".to_string(), 2);
    assert!(!r.unregister_if_matches("n", 1));
    assert_eq!(r.get("n"), Some(2));
    assert_eq!(r.len(), 1);
    assert_eq!(r.entry(0), ("n".to_string(), 2));
    assert!(r.unregister_if_matches("n", 2));
    assert_eq!(r.unregister("n"), None);
    let mut l = LogResponseRegistry::new();
    l.register("k".to_string(), 8);
    assert_eq!(l.send("k"), Some(8));
    assert_eq!(l.send("x"), None);
    let rules = build_delete_table_ruleset();
    assert!(rules.contains("delete") && rules.contains("rk8s"));
}

#[test]
fn connections_are_admitted() {
    assert!(matches!(
        classify_connection(RksMessage::RegisterNode(node("n", vec![]))),
        Client::Worker(_)
    ));
    assert!(matches!(
        classify_connection(RksMessage::UserRequest("u".to_string())),
        Client::User
    ));
    assert!(matches!(classify_connection(RksMessage::Ack), Client::Unknown));
    let sign = |t: &str| RksMessage::CertificateSign {
        req: IssueCertificateRequest {
            common_name: Some("worker".to_string()),
            alt_names: None,
            ip_sans: None,
            ttl: None,
        },
        token: t.to_string(),
    };
    match sign_request(sign("t"), "t") {
        Admission::Issue(role, req) => {
            assert_eq!(role.name(), "rkl");
            assert_eq!(req.common_name.as_deref(), Some("worker"));
        }
        other => panic!("{other:?}"),
    }
    match sign_request(sign("x"), "t") {
        Admission::Refuse(m) => assert_eq!(error_of(m), "Invalid join token"),
        other => panic!("{other:?}"),
    }
    assert!(matches!(sign_request(RksMessage::Ack, "t"), Admission::Unexpected));
    let _ = (is_verified(true, true), is_verified(false, false));
}

#[test]
fn volumes_of_pods_are_mounted_and_removed() {
    let mut p = pod("p", 0x11, Some("n"));
    p.spec.volumes = vec![
        PodVolume {
            name: "data".to_string(),
            source: VolumeSource::SlayerFs { capacity_bytes: Some(7), config: None },
        },
        PodVolume { name: "other".to_string(), source: VolumeSource::Other("x".to_string()) },
    ];
    let wishes = volume_wishes(&p);
    assert_eq!(wishes.len(), 1);
    assert_eq!(wishes[0].vol_name, "data");
    assert_eq!(wishes[0].request.capacity_bytes, 7);
    note_volume(&mut p, "data", &VolumeId("vol-1".to_string()));
    assert_eq!(
        p.metadata.annotations.get(&csi_volume_annotation_key("data")).unwrap(),
        "vol-1"
    );
    let removals = volume_removals(&p, "n");
    assert_eq!(removals.len(), 1);
    assert_eq!(removals[0].volume_id.0, "vol-1");
    assert_eq!(removals[0].target_path, wishes[0].target_path);
    assert!(volume_removals(&p, "m").is_empty());
    assert!(is_assigned_to(&p, "n"));
    assert!(handle_put_event(None, &p));
    assert!(handle_put_event(Some(&pod("p", 1, None)), &p));
    assert!(!handle_put_event(Some(&pod("p", 1, Some("n"))), &p));
    assert_eq!(deleted_pod_name(b"/registry/pods/p"), "p");
}

#[test]
fn pods_are_sent_to_their_node() {
    assert!(matches!(
        watch_create(pod("p", 1, Some("n")), "n"),
        Some(RksMessage::CreatePod(_))
    ));
    assert!(watch_create(pod("p", 1, Some("m")), "n").is_none());
    assert!(matches!(
        watch_delete("p".to_string(), &pod("p", 1, Some("n")), "n"),
        Some(RksMessage::DeletePod(_))
    ));
    assert!(watch_delete("p".to_string(), &pod("p", 1, None), "n").is_none());
}

#[test]
fn services_are_created_once() {
    assert!(matches!(service_created("web", true), RksMessage::Ack));
    assert_eq!(error_of(service_created("web", false)), "service \"web\" already exists");
    assert_eq!(
        error_of(service_upserted("web", false)),
        "Service web was created concurrently, please retry apply"
    );
    assert_eq!(error_of(allocation_failed("x")), "ClusterIP allocation failed: x");
    assert_eq!(
        error_of(reallocation_failed("x")),
        "ClusterIP validation/allocation failed: x"
    );
    let svc = service("ClusterIP", Some("10.96.0.9"));
    assert!(should_release(&StoredService::Unknown, &svc));
    assert!(!should_release(
        &StoredService::Found(service("ClusterIP", Some("10.96.0.9"))),
        &svc
    ));
    assert!(should_release(&StoredService::Found(service("ClusterIP", None)), &svc));
    assert_eq!(service_to_store(svc, 9).metadata.creation_timestamp, Some(9));
    assert!(matches!(show_service("web", None), RksMessage::Error(_)));
}

#[test]
fn log_errors_name_the_worker() {
    let r = log_request();
    match log_node_missing(&r, "n1") {
        RksMessage::PodLogsError { error, .. } => {
            assert_eq!(error, "Worker node n1 is not connected")
        }
        other => panic!("{other:?}"),
    }
    match log_forward_failed(&r, "x") {
        RksMessage::PodLogsError { error, .. } => {
            assert_eq!(error, "Failed to forward log request to worker: x")
        }
        other => panic!("{other:?}"),
    }
}

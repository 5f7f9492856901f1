use rks::network::address::{Ipv4Addr, Ipv4Network, Ipv6Addr, Ipv6Network};
use rks::network::annotation::{complete_prefix, new_annotations};
use rks::network::backend::hostgw::{handle_lease_event, HostgwBackend, RouteChange, RouteNetwork};
use rks::network::backend::SimpleNetwork;
use rks::network::backend::interface::{
    check_hostgw_compatibility, discover_interface, discover_interface_by_ip,
    discover_interface_by_name, validate_interface, with_addresses, Discovery, ExternalInterface,
    Interface,
};
use rks::network::config::{check_network_config, parse_backend_type, parse_config, Backend, Config};
use rks::network::init::{
    bridge_check, check_renew_margin, cidrs_of_entries, get_config, init_network, init_step,
    read_cidr_from_subnet_file, read_cidrs_from_subnet_file, read_ip6_cidr_from_subnet_file,
    read_ip6_cidrs_from_subnet_file, ConfigPoll, InitNext, InitOutcome, InitStep,
};
use rks::network::ip::{next_ipv4_network, next_ipv6_network, AddIP, SubIP};
use rks::network::lease::{Event, EventType, Lease, LeaseAttrs, LeaseWatchResult, LeaseWatcher};
use rks::network::rebuild::rebuild_service_ip_registry_from_services;
use rks::network::service_ip::{
    assign_cluster_ip, backoff_ms, check_record, deallocate_cluster_ip, is_reserved_service_ip,
    validate_cluster_ip, validate_cluster_ip_immutability, AllocationStep, ClusterIpStep,
    Reservation, ServiceIpAllocator, ServiceIpError, ServiceIpRecord, ServiceIpRegistry,
};
use rks::network::subnet::{watch_lease, watch_leases};
use rks::protocol::config::XlineConfig;
use rks::protocol::labels::LabelMap;
use rks::protocol::meta::ObjectMeta;
use rks::protocol::service::{ServiceSpec, ServiceTask};
use rks::protocol::workload::LabelSelector;

fn v4(text: &str) -> Ipv4Addr {
    Ipv4Addr::parse(text).unwrap()
}

fn net4(text: &str) -> Ipv4Network {
    Ipv4Network::parse(text).unwrap()
}

fn net6(text: &str) -> Ipv6Network {
    Ipv6Network::parse(text).unwrap()
}

fn bare_config() -> Config {
    Config {
        enable_ipv4: false,
        enable_ipv6: false,
        enable_nftables: false,
        network: None,
        ipv6_network: None,
        subnet_min: None,
        subnet_max: None,
        ipv6_subnet_min: None,
        ipv6_subnet_max: None,
        subnet_len: 0,
        ipv6_subnet_len: 0,
        backend_type: "".to_string(),
    }
}

#[test]
fn test_check_network_config_ipv4_only() {
    let mut cfg = Config {
        enable_ipv4: true,
        network: Some(net4("10.0.0.0/16")),
        subnet_len: 24,
        ..bare_config()
    };

    check_network_config(&mut cfg).expect("IPv4 config should pass");
    assert_eq!(cfg.subnet_min.unwrap(), Ipv4Addr::new(10, 0, 1, 0));
    assert_eq!(cfg.subnet_max.unwrap(), Ipv4Addr::new(10, 0, 255, 0));
}

#[test]
fn test_check_network_config_ipv6_only() {
    let mut cfg = Config {
        enable_ipv6: true,
        ipv6_network: Some(net6("fc00::/7")),
        ipv6_subnet_len: 64,
        ..bare_config()
    };

    check_network_config(&mut cfg).expect("IPv6 config should pass");
    assert_eq!(cfg.ipv6_subnet_min.unwrap(), Ipv6Addr::parse("fc00:0:0:1::").unwrap());
    assert_eq!(cfg.ipv6_subnet_max.unwrap(), Ipv6Addr::parse("fdff:ffff:ffff:ffff::").unwrap());
}

#[test]
fn checked_config_passes_again() {
    let mut cfg = Config {
        enable_ipv4: true,
        network: Some(net4("10.0.0.0/16")),
        subnet_len: 24,
        ..bare_config()
    };
    check_network_config(&mut cfg).unwrap();
    let (min, max) = (cfg.subnet_min, cfg.subnet_max);
    check_network_config(&mut cfg).unwrap();
    assert_eq!((cfg.subnet_min, cfg.subnet_max), (min, max));
    let n = net4("10.0.0.0/16");
    assert!(n.contains(min.unwrap()) && n.contains(max.unwrap()));
    // A smallest subnet outside of the network is refused.
    cfg.subnet_min = Some(v4("10.1.0.0"));
    assert!(check_network_config(&mut cfg).is_err());
    let mut missing = Config { enable_ipv4: true, subnet_len: 24, ..bare_config() };
    assert!(check_network_config(&mut missing).is_err());
}

#[test]
fn backend_types() {
    assert_eq!(parse_backend_type(Backend::Missing).unwrap(), "hostgw");
    assert_eq!(parse_backend_type(Backend::Type("udp".to_string())).unwrap(), "udp");
    assert_eq!(
        parse_backend_type(Backend::Undecodable).unwrap_err(),
        "decoding Backend property of config"
    );
    let cfg = parse_config(bare_config(), Backend::Missing).unwrap();
    assert!(cfg.enable_ipv4);
    assert_eq!(cfg.backend_type, "hostgw");
}

#[test]
fn test_read_single_ipv4_cidr() {
    let content = b"SUBNET=10.1.2.0/24";
    let cidr = read_cidr_from_subnet_file(content, "SUBNET");
    assert_eq!(cidr, Some(Ipv4Network::parse("10.1.2.0/24").unwrap()));
}

#[test]
fn test_read_multiple_ipv4_cidrs() {
    let content = b"SUBNET=10.1.1.0/24,10.1.2.0/24";
    let cidr = read_cidr_from_subnet_file(content, "SUBNET");
    assert!(cidr.is_none());
    let cidrs = read_cidrs_from_subnet_file(content, "SUBNET");
    assert_eq!(cidrs.len(), 2);
    assert!(cidrs.contains(&Ipv4Network::parse("10.1.1.0/24").unwrap()));
    assert!(cidrs.contains(&Ipv4Network::parse("10.1.2.0/24").unwrap()));
}

#[test]
fn test_read_single_ipv6_cidr() {
    let content = b"IP6_SUBNET=fd00::/64";
    let cidr = read_ip6_cidr_from_subnet_file(content, "IP6_SUBNET");
    assert_eq!(cidr, Some(Ipv6Network::parse("fd00::/64").unwrap()));
}

#[test]
fn test_read_multiple_ipv6_cidrs() {
    let content = b"IP6_SUBNET=fd00::/64,fd01::/64";
    let cidr = read_ip6_cidr_from_subnet_file(content, "IP6_SUBNET");
    assert!(cidr.is_none());
    let cidrs = read_ip6_cidrs_from_subnet_file(content, "IP6_SUBNET");
    assert_eq!(cidrs.len(), 2);
    assert!(cidrs.contains(&Ipv6Network::parse("fd00::/64").unwrap()));
    assert!(cidrs.contains(&Ipv6Network::parse("fd01::/64").unwrap()));
}

#[test]
fn test_key_not_found() {
    let cidr = read_cidr_from_subnet_file(b"OTHER_KEY=192.168.1.0/24", "SUBNET");
    assert!(cidr.is_none());
}

#[test]
fn test_invalid_cidr_string() {
    let cidrs = read_cidrs_from_subnet_file(b"SUBNET=invalid-cidr", "SUBNET");
    assert_eq!(cidrs.len(), 0);
}

#[test]
fn entries_that_cannot_be_read_are_passed_over() {
    let entries = vec![
        None,
        Some(("SUBNET".to_string(), "10.0.0.0/8,x,10.1.0.0/16".to_string())),
        Some(("OTHER".to_string(), "10.2.0.0/16".to_string())),
    ];
    assert_eq!(
        cidrs_of_entries(&entries, "SUBNET"),
        vec![net4("10.0.0.0/8"), net4("10.1.0.0/16")]
    );
}

#[test]
fn addresses_are_read_back() {
    for bits in [0u32, 1, 0x0a60_0064, 0x7fff_ffff, u32::MAX] {
        let a = Ipv4Addr { bits };
        assert_eq!(Ipv4Addr::parse(&a.to_text()), Some(a));
    }
    for text in ["", "1.2.3", "1.2.3.4.5", "01.2.3.4", "256.1.1.1", " 1.2.3.4", "1.2.3.4 ", "a.b.c.d"] {
        assert_eq!(Ipv4Addr::parse(text), None, "{text}");
    }
    assert_eq!(Ipv6Addr::parse("::1"), Some(Ipv6Addr { bits: 1 }));
    assert_eq!(Ipv6Addr { bits: 1 }.to_text(), "::1");
    assert_eq!(Ipv6Addr::parse("::1/128"), None);
    assert_eq!(Ipv6Addr::parse("x"), None);
    assert_eq!(net4("10.96.3.4/12").network(), v4("10.96.0.0"));
    assert_eq!(net4("10.96.3.4/12").broadcast(), v4("10.111.255.255"));
    assert!(net4("10.96.3.4/12").contains(v4("10.100.0.1")));
    assert!(!net4("10.96.3.4/12").contains(v4("10.112.0.1")));
    assert_eq!(net4("10.96.3.4/12").to_text(), "10.96.3.4/12");
    assert_eq!(Ipv4Network::parse("10.0.0.0/33"), None);
    assert_eq!(net6("fd00::1/64").network(), net6("fd00::/64").ip);
    assert_eq!(net6("fd00::/64").broadcast(), Ipv6Addr::parse("fd00::ffff:ffff:ffff:ffff").unwrap());
    assert_eq!(net6("fd00::/64").to_text(), "fd00::/64");
    assert!(net6("::/0").contains(Ipv6Addr { bits: u128::MAX }));
}

#[test]
fn networks_follow_one_another() {
    assert_eq!(next_ipv4_network(net4("10.0.1.0/24")).unwrap(), net4("10.0.2.0/24"));
    assert_eq!(next_ipv4_network(net4("255.255.255.0/24")).unwrap(), net4("0.0.0.0/24"));
    assert_eq!(next_ipv6_network(net6("fd00::/64")).unwrap(), net6("fd00:0:0:1::/64"));
    assert_eq!(AddIP::add(v4("10.0.0.255"), 1u32), v4("10.0.1.0"));
    assert_eq!(SubIP::sub(v4("10.0.1.0"), 1u32), v4("10.0.0.255"));
    assert_eq!(AddIP::add(Ipv6Addr { bits: 5 }, 6u128), Ipv6Addr { bits: 11 });
    assert_eq!(SubIP::sub(Ipv6Addr { bits: 5 }, 5u128), Ipv6Addr { bits: 0 });
}

#[test]
fn annotations_lie_under_the_prefix() {
    let a = new_annotations("flannel.alpha.coreos.com").unwrap();
    assert_eq!(a.backend_type, "flannel.alpha.coreos.com/backend-type");
    let b = new_annotations("example.com/net").unwrap();
    assert_eq!(b.backend_public_ip, "example.com/net-public-ip");
    assert_eq!(
        new_annotations("a/b/c").unwrap_err(),
        "subnet/kube: prefix can contain at most single slash"
    );
    assert_eq!(
        new_annotations("under_score/x").unwrap_err(),
        "subnet/kube: prefix must be in a format: fqdn/[0-9a-z-_]*"
    );
    for p in ["a.b", "a.b/", "a.b/c", "a.b/c-"] {
        let once = complete_prefix(p);
        assert_eq!(complete_prefix(&once), once);
    }
    assert_eq!(complete_prefix("a.b"), "a.b/");
}

#[test]
fn renew_margin_is_bounded() {
    let cfg = |margin: Option<i64>| XlineConfig {
        endpoints: vec![],
        prefix: "".to_string(),
        username: None,
        password: None,
        subnet_lease_renew_margin: margin,
    };
    let mut c = cfg(None);
    assert!(check_renew_margin(&mut c).is_ok());
    assert_eq!(c.subnet_lease_renew_margin, Some(60));
    assert!(check_renew_margin(&mut cfg(Some(1))).is_ok());
    assert!(check_renew_margin(&mut cfg(Some(1439))).is_ok());
    assert_eq!(
        check_renew_margin(&mut cfg(Some(1440))).unwrap_err(),
        "Invalid subnet-lease-renew-margin (1440), must be between 1 and 1439 minutes"
    );
    assert!(check_renew_margin(&mut cfg(Some(-1))).is_err());
}

fn failed() -> InitOutcome {
    InitOutcome::Failed("x".to_string())
}

#[test]
fn network_starts_step_by_step() {
    let mut step = InitStep::CreateManager;
    let mut seen = 0;
    while !matches!(step, InitStep::Wait) {
        match init_step(step, InitOutcome::Succeeded) {
            InitNext::Go(next) => step = next,
            other => panic!("{other:?}"),
        }
        seen += 1;
    }
    assert_eq!(seen, 11);
    assert!(matches!(init_step(step, InitOutcome::Succeeded), InitNext::Done));
    match init_step(InitStep::RegisterNetwork, failed()) {
        InitNext::CancelAndFail(m) => assert_eq!(m, "Error registering network: x"),
        other => panic!("{other:?}"),
    }
    match init_step(InitStep::FindFamily, failed()) {
        InitNext::Fail(m) => assert_eq!(m, "Failed to determine IP family stack: x"),
        other => panic!("{other:?}"),
    }
    assert!(matches!(
        init_step(InitStep::WriteSubnetFile, failed()),
        InitNext::Go(InitStep::CompleteLease)
    ));
    assert!(matches!(
        init_step(InitStep::CompleteLease, InitOutcome::Failed("ERRINTERRUPTED".to_string())),
        InitNext::CancelAndGo(InitStep::Wait)
    ));
    assert!(matches!(init_step(InitStep::CompleteLease, failed()), InitNext::Go(InitStep::Wait)));
    assert!(bridge_check(false, false));
    assert!(!bridge_check(true, false));
    assert!(matches!(get_config(ConfigPoll::Found), Some(InitOutcome::Succeeded)));
    assert!(get_config(ConfigPoll::Missing).is_none());
}

fn xline_config(margin: Option<i64>) -> XlineConfig {
    XlineConfig {
        endpoints: vec!["http://127.0.0.1:2379".to_string()],
        prefix: "/coreos.com/network".to_string(),
        username: None,
        password: None,
        subnet_lease_renew_margin: margin,
    }
}

#[test]
fn integration_init_network_with_etcd_and_cancel() {
    let mut cfg = xline_config(Some(60));
    let step = match init_network(&mut cfg) {
        InitNext::Go(step) => step,
        other => panic!("{other:?}"),
    };
    assert_eq!(step, InitStep::CreateManager);
    let step = match init_step(step, InitOutcome::Succeeded) {
        InitNext::Go(step) => step,
        other => panic!("{other:?}"),
    };
    assert!(get_config(ConfigPoll::Missing).is_none());
    let outcome = get_config(ConfigPoll::Cancelled).unwrap();
    assert!(matches!(init_step(step, outcome), InitNext::Done));
    let wait = init_step(InitStep::Wait, InitOutcome::Cancelled);
    assert!(matches!(wait, InitNext::CancelAndDone));
}

#[test]
fn network_with_a_bad_margin_does_not_start() {
    let mut cfg = xline_config(Some(1440));
    match init_network(&mut cfg) {
        InitNext::Fail(m) => assert_eq!(
            m,
            "Invalid subnet-lease-renew-margin (1440), must be between 1 and 1439 minutes"
        ),
        other => panic!("{other:?}"),
    }
    assert_eq!(cfg.subnet_lease_renew_margin, Some(1440));
    let mut cfg = xline_config(None);
    assert!(matches!(init_network(&mut cfg), InitNext::Go(InitStep::CreateManager)));
    assert_eq!(cfg.subnet_lease_renew_margin, Some(60));
}

fn iface(mtu: Option<u32>) -> Interface {
    Interface { name: "eth0".to_string(), index: 2, mtu }
}

#[test]
fn interfaces_are_discovered() {
    assert!(matches!(
        discover_interface(Some("eth0".to_string()), None),
        Discovery::ByName(_)
    ));
    assert!(matches!(discover_interface(None, Some(v4("10.0.0.1"))), Discovery::ByAddress(_)));
    assert!(matches!(discover_interface(None, None), Discovery::Default));
    assert_eq!(
        discover_interface_by_name(vec![iface(None)], "eth1").unwrap_err(),
        "Interface 'eth1' not found"
    );
    assert_eq!(discover_interface_by_name(vec![iface(None)], "eth0").unwrap().index, 2);

    let found = with_addresses(iface(None), &vec![v4("10.0.0.5")], &vec![]);
    assert!(check_hostgw_compatibility(&found).is_ok());
    assert!(validate_interface(&found).is_ok());
    let by_ip = discover_interface_by_ip(iface(None), v4("10.0.0.5"), &vec![v4("10.0.0.5")], &vec![]);
    assert_eq!(by_ip.ext_addr, Some(v4("10.0.0.5")));
    let nat = ExternalInterface { ext_addr: Some(v4("1.2.3.4")), ..with_addresses(iface(None), &vec![v4("10.0.0.5")], &vec![]) };
    assert_eq!(
        check_hostgw_compatibility(&nat).unwrap_err(),
        "Your PublicIP (1.2.3.4) differs from interface IP (10.0.0.5), meaning that probably you're on a NAT, which is not supported by host-gw backend"
    );
    let none = with_addresses(iface(None), &vec![], &vec![]);
    assert_eq!(check_hostgw_compatibility(&none).unwrap_err(), "No external IP address available");
    assert_eq!(
        validate_interface(&none).unwrap_err(),
        "Interface has no IPv4 address assigned"
    );
    assert_eq!(
        validate_interface(&with_addresses(iface(Some(1000)), &vec![v4("10.0.0.5")], &vec![])).unwrap_err(),
        "Interface MTU 1000 is too small, minimum 1280"
    );
    assert_eq!(
        validate_interface(&with_addresses(iface(None), &vec![v4("0.0.0.0")], &vec![])).unwrap_err(),
        "Interface has invalid IPv4 address"
    );
}

fn lease(subnet: &str, node: &str) -> Lease {
    Lease {
        enable_ipv4: true,
        enable_ipv6: false,
        subnet: net4(subnet),
        ipv6_subnet: None,
        attrs: LeaseAttrs {
            public_ip: v4("10.0.0.1"),
            public_ipv6: None,
            backend_type: "hostgw".to_string(),
            node_id: node.to_string(),
        },
    }
}

fn watcher() -> LeaseWatcher {
    LeaseWatcher { own_lease: lease("10.1.0.0/24", "own"), leases: vec![] }
}

#[test]
fn lease_changes_are_reported_once() {
    let mut w = watcher();
    let first = w.reset(vec![lease("10.1.0.0/24", "own"), lease("10.1.1.0/24", "a"), lease("10.1.2.0/24", "b")]);
    assert_eq!(first.len(), 2);
    assert!(first.iter().all(|e| matches!(e.event_type, EventType::Added)));
    // The own lease is not kept, so that it is not reported as removed later.
    assert_eq!(w.leases.len(), 2);
    let all = || vec![lease("10.1.0.0/24", "own"), lease("10.1.1.0/24", "a"), lease("10.1.2.0/24", "b")];
    assert!(w.reset(all()).is_empty());
    let moved = w.reset(vec![lease("10.1.3.0/24", "c"), lease("10.1.1.0/24", "a"), lease("10.1.0.0/24", "own")]);
    let told: Vec<_> = moved
        .iter()
        .map(|e| (e.event_type, e.lease.as_ref().unwrap().attrs.node_id.as_str()))
        .collect();
    assert_eq!(told, vec![(EventType::Added, "c"), (EventType::Removed, "b")]);

    let mut w = watcher();
    w.reset(vec![lease("10.1.1.0/24", "a")]);
    assert!(w.reset(vec![lease("10.1.1.0/24", "a")]).is_empty());
    let gone = w.reset(vec![]);
    assert_eq!(gone.len(), 1);
    assert!(matches!(gone[0].event_type, EventType::Removed));

    let added = w.update(vec![Event { event_type: EventType::Added, lease: Some(lease("10.1.3.0/24", "c")) }]);
    assert_eq!(added.len(), 1);
    assert_eq!(w.leases.len(), 1);
    w.update(vec![Event { event_type: EventType::Removed, lease: Some(lease("10.1.3.0/24", "c")) }]);
    assert!(w.leases.is_empty());
    // The own lease brings no event.
    assert!(w
        .update(vec![Event { event_type: EventType::Added, lease: Some(lease("10.1.0.0/24", "own")) }])
        .is_empty());
}

#[test]
fn watches_take_events_before_snapshots() {
    let mut w = watcher();
    let batch = watch_leases(
        &mut w,
        LeaseWatchResult {
            events: vec![Event { event_type: EventType::Added, lease: Some(lease("10.1.4.0/24", "d")) }],
            snapshot: vec![],
        },
    );
    assert_eq!(batch.len(), 1);
    let one = watch_lease(LeaseWatchResult { events: vec![], snapshot: vec![lease("10.1.4.0/24", "d")] }).unwrap();
    assert!(matches!(one.event_type, EventType::Added));
    assert!(watch_lease(LeaseWatchResult { events: vec![], snapshot: vec![] }).is_none());
}

#[test]
fn host_gateway_routes_follow_leases() {
    let event = |t: EventType| Event { event_type: t, lease: Some(lease("10.1.1.0/24", "a")) };
    assert!(matches!(handle_lease_event(event(EventType::Added), "hostgw"), RouteChange::Add(_)));
    assert!(matches!(handle_lease_event(event(EventType::Removed), "hostgw"), RouteChange::Remove(_)));
    assert!(matches!(handle_lease_event(event(EventType::Added), "vxlan"), RouteChange::Nothing));

    let good = with_addresses(iface(Some(1450)), &vec![v4("10.0.0.5")], &vec![]);
    let backend = HostgwBackend::new(good).unwrap();
    assert_eq!(backend.lease_attrs().backend_type, "host-gw");
    assert_eq!(backend.lease_attrs().public_ip, v4("10.0.0.5"));
    assert!(HostgwBackend::new(with_addresses(iface(None), &vec![], &vec![])).is_err());

    let mut n = RouteNetwork::new(
        with_addresses(iface(Some(1450)), &vec![v4("10.0.0.5")], &vec![]),
        "hostgw".to_string(),
    );
    assert!(n.get_lease().is_err());
    n.set_lease(lease("10.1.0.0/24", "own"));
    assert_eq!(n.get_lease().unwrap().subnet, net4("10.1.0.0/24"));
    assert_eq!(n.mtu(), Some(1450));
    assert!(n.run().is_ok());
    assert_eq!(n.run().unwrap_err(), "Network is already running");
    assert!(n.stop());
    assert!(!n.stop());

    let ext_iface = with_addresses(iface(Some(1450)), &vec![v4("10.0.0.5")], &vec![]);
    let mut simple = SimpleNetwork { ext_iface, lease: None };
    assert_eq!(simple.get_lease().unwrap_err(), "No lease available");
    simple.set_lease(lease("10.1.0.0/24", "own"));
    assert_eq!(simple.get_lease().unwrap().subnet, net4("10.1.0.0/24"));
    assert_eq!((simple.mtu(), simple.backend_type().as_str()), (Some(1450), "simple"));
}

#[test]
fn test_reserved_service_ips() {
    let subnet: Ipv4Network = Ipv4Network::parse("10.96.0.0/24").unwrap();

    assert!(is_reserved_service_ip(Ipv4Addr::new(10, 96, 0, 0), subnet));
    assert!(is_reserved_service_ip(Ipv4Addr::new(10, 96, 0, 1), subnet));
    assert!(is_reserved_service_ip(Ipv4Addr::new(10, 96, 0, 254), subnet));
    assert!(is_reserved_service_ip(Ipv4Addr::new(10, 96, 0, 255), subnet));

    assert!(!is_reserved_service_ip(Ipv4Addr::new(10, 96, 0, 2), subnet));
    assert!(!is_reserved_service_ip(Ipv4Addr::new(10, 96, 0, 100), subnet));
    assert!(!is_reserved_service_ip(Ipv4Addr::new(10, 96, 0, 200), subnet));
}

#[test]
fn reserved_addresses_are_those_of_the_network() {
    // The network may be named by any of its addresses.
    let subnet = Ipv4Network::parse("10.96.0.5/24").unwrap();
    for last in [0, 1, 254, 255] {
        assert!(is_reserved_service_ip(Ipv4Addr::new(10, 96, 0, last), subnet));
    }
    assert!(!is_reserved_service_ip(Ipv4Addr::new(10, 96, 0, 5), subnet));
    assert!(!is_reserved_service_ip(Ipv4Addr::new(10, 96, 0, 6), subnet));
    let top = Ipv4Network::parse("255.255.255.255/32").unwrap();
    assert!(is_reserved_service_ip(Ipv4Addr::new(255, 255, 255, 255), top));
    assert!(!is_reserved_service_ip(Ipv4Addr::new(0, 0, 0, 0), top));
}

#[test]
fn test_first_host_only_reserved_for_broad_cidr() {
    let subnet: Ipv4Network = Ipv4Network::parse("10.96.0.0/16").unwrap();

    assert!(is_reserved_service_ip(Ipv4Addr::new(10, 96, 0, 1), subnet));

    assert!(!is_reserved_service_ip(Ipv4Addr::new(10, 96, 1, 1), subnet));
    assert!(!is_reserved_service_ip(Ipv4Addr::new(10, 96, 200, 1), subnet));
}

fn spec(ip: Option<&str>) -> ServiceSpec {
    ServiceSpec {
        cluster_ip: ip.map(|s| s.to_string()),
        service_type: "ClusterIP".to_string(),
        selector: Some(LabelSelector { match_labels: LabelMap::new(), match_expressions: vec![] }),
        ports: vec![],
    }
}

#[test]
fn test_immutability_validation() {
    let old_spec = spec(Some("10.96.0.100"));

    let mut new_spec = spec(Some("10.96.0.100"));
    assert!(validate_cluster_ip_immutability("test-svc", &old_spec, &new_spec).is_ok());

    new_spec.cluster_ip = Some("10.96.0.101".to_string());
    assert!(validate_cluster_ip_immutability("test-svc", &old_spec, &new_spec).is_err());
    assert_eq!(
        validate_cluster_ip_immutability("test-svc", &old_spec, &new_spec).unwrap_err(),
        "cluster_ip for service test-svc cannot be modified: old=Some(\"10.96.0.100\"), new=Some(\"10.96.0.101\")"
    );
}

#[test]
fn candidates_are_usable_and_distinct() {
    let cidr = net4("10.96.0.0/24");
    let allocator = ServiceIpAllocator::new(cidr, 3);
    let c = allocator.generate_candidate_ips().unwrap();
    assert!(!c.is_empty());
    for (i, a) in c.iter().enumerate() {
        assert!(cidr.contains(*a) && !is_reserved_service_ip(*a, cidr));
        assert!(!c[..i].contains(a));
    }
    assert_eq!(
        ServiceIpAllocator::new(net4("10.96.0.0/31"), 3).generate_candidate_ips().unwrap_err(),
        "no usable host IPs in CIDR 10.96.0.0/31"
    );
    let order = allocator.probe_addresses(7);
    assert_eq!(order.len(), 252);
    assert_eq!(allocator.random_probe().len(), 252);
}

#[test]
fn allocation_tries_backs_off_and_probes() {
    let cidr = net4("10.96.0.0/24");
    let allocator = ServiceIpAllocator::new(cidr, 1);
    let (mut st, step) = allocator.allocate();
    assert!(matches!(step, AllocationStep::Draw));
    let (a, b) = (v4("10.96.0.5"), v4("10.96.0.6"));
    match allocator.drawn(&mut st, Ok(vec![a, b])) {
        AllocationStep::Reserve(ip) => assert_eq!(ip, a),
        other => panic!("{other:?}"),
    }
    match allocator.reserved(&mut st, Reservation::AlreadyAllocated) {
        AllocationStep::Reserve(ip) => assert_eq!(ip, b),
        other => panic!("{other:?}"),
    }
    match allocator.reserved(&mut st, Reservation::AlreadyAllocated) {
        AllocationStep::Wait(ms) => assert_eq!(ms, backoff_ms(0)),
        other => panic!("{other:?}"),
    }
    assert!(matches!(allocator.waited(&st), AllocationStep::Probe));
    match allocator.probed(&mut st, vec![a]) {
        AllocationStep::Reserve(ip) => assert_eq!(ip, a),
        other => panic!("{other:?}"),
    }
    match allocator.reserved(&mut st, Reservation::Reserved) {
        AllocationStep::Allocated(ip) => assert_eq!(ip, a),
        other => panic!("{other:?}"),
    }
    match allocator.drawn(&mut st, Ok(vec![])) {
        AllocationStep::Failed(m) => {
            assert_eq!(m, "Service IP pool exhausted (no available IPs in 10.96.0.0/24)")
        }
        other => panic!("{other:?}"),
    }
    assert_eq!((backoff_ms(0), backoff_ms(1), backoff_ms(100)), (10, 20, 200));
}

#[test]
fn service_ip_errors_speak() {
    assert_eq!(
        ServiceIpError::AlreadyAllocated { ip: v4("10.96.0.5") }.message(),
        "service IP already allocated: 10.96.0.5"
    );
    assert_eq!(ServiceIpError::Other("x".to_string()).message(), "x");
    assert_eq!(ServiceIpError::XlineError("x".to_string()).message(), "xline error: x");
    assert_eq!(ServiceIpError::Utf8Error("x".to_string()).message(), "UTF-8 decode error: x");
    assert_eq!(
        ServiceIpError::AllocationFailed("x".to_string()).message(),
        "service IP allocation failed: x"
    );
    assert!(ServiceIpRegistry::allocated(v4("10.96.0.5"), true).is_ok());
    assert!(matches!(
        ServiceIpRegistry::allocated(v4("10.96.0.5"), false),
        Err(ServiceIpError::AlreadyAllocated { .. })
    ));
    assert_ne!(
        ServiceIpRegistry::make_key(v4("10.96.0.5")),
        ServiceIpRegistry::make_key(v4("10.96.0.6"))
    );
}

#[test]
fn cluster_ips_are_validated() {
    let cidr = Some(net4("10.96.0.0/24"));
    assert!(matches!(validate_cluster_ip(&spec(None), cidr), ClusterIpStep::Allocate));
    assert!(matches!(validate_cluster_ip(&spec(Some("None")), cidr), ClusterIpStep::Keep));
    match validate_cluster_ip(&spec(Some("10.96.0.9")), cidr) {
        ClusterIpStep::LookUp(ip) => assert_eq!(ip, v4("10.96.0.9")),
        other => panic!("{other:?}"),
    }
    assert!(matches!(validate_cluster_ip(&spec(Some("10.97.0.9")), cidr), ClusterIpStep::Refuse(_)));
    assert!(matches!(validate_cluster_ip(&spec(Some("x")), cidr), ClusterIpStep::Refuse(_)));
    let record = |name: &str| {
        Some(ServiceIpRecord {
            ip: v4("10.96.0.9"),
            service_namespace: "ns".to_string(),
            service_name: name.to_string(),
            allocated_at: "".to_string(),
        })
    };
    let ip = v4("10.96.0.9");
    assert!(matches!(check_record("ns", "web", ip, &record("web")), ClusterIpStep::Keep));
    assert!(matches!(check_record("ns", "web", ip, &None), ClusterIpStep::Reserve(_)));
    match check_record("ns", "web", ip, &record("other")) {
        ClusterIpStep::Refuse(m) => assert_eq!(
            m,
            "cluster_ip 10.96.0.9 is already allocated to another service (ns/other)"
        ),
        other => panic!("{other:?}"),
    }
    let mut s = spec(None);
    assign_cluster_ip(&mut s, ip);
    assert_eq!(s.cluster_ip.as_deref(), Some("10.96.0.9"));
    assert_eq!(deallocate_cluster_ip(&s), Ok(Some(ip)));
    assert_eq!(deallocate_cluster_ip(&spec(Some("none"))), Ok(None));
    assert_eq!(deallocate_cluster_ip(&spec(None)), Ok(None));
    assert_eq!(
        deallocate_cluster_ip(&spec(Some("x"))),
        Err("invalid cluster_ip format during deletion: x".to_string())
    );
}

#[test]
fn registry_is_rebuilt_from_services() {
    let service = |name: &str, ip: &str| ServiceTask {
        api_version: "v1".to_string(),
        kind: "Service".to_string(),
        metadata: ObjectMeta::bare(name.to_string(), "ns".to_string(), 1),
        spec: spec(Some(ip)),
    };
    let record = |name: &str, ip: &str| ServiceIpRecord {
        ip: v4(ip),
        service_namespace: "ns".to_string(),
        service_name: name.to_string(),
        allocated_at: "".to_string(),
    };
    let plan = rebuild_service_ip_registry_from_services(
        &vec![record("gone", "10.96.0.5"), record("kept", "10.96.0.6")],
        &vec![service("kept", "10.96.0.6"), service("new", "10.96.0.7")],
        net4("10.96.0.0/24"),
    );
    assert_eq!(plan.release, vec![v4("10.96.0.5")]);
    assert_eq!(plan.reserve.len(), 1);
    assert_eq!(plan.reserve[0].service_name, "new");
    assert_eq!(plan.reserve[0].ip, v4("10.96.0.7"));
}

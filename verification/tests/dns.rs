use hickory_proto::rr::LowerName;
use rks::dns::authority::{
    cleanup_iptable, cluster_zone, iptable_rules, listen_address, parse_pod_query,
    parse_service_query, setup_iptable, DnsName, PodChange, RuleAction, ServiceChange, WatchReply,
    XlineAuthority,
};
use rks::dns::object_cache::DnsObjectCache;
use rks::network::address::Ipv4Addr;
use rks::protocol::meta::ObjectMeta;
use rks::protocol::pod::{PodSpec, PodStatus, PodTask, RestartPolicy};
use rks::protocol::service::{ServiceSpec, ServiceTask};
use std::str::FromStr;

fn dns_name(text: &str) -> DnsName {
    let name = LowerName::from_str(text).unwrap();
    DnsName { labels: name.iter().map(|l| l.to_vec()).collect() }
}

fn pod(namespace: &str, ip: &str) -> PodTask {
    let mut status = PodStatus::fresh();
    status.pod_ip = Some(ip.to_string());
    PodTask {
        api_version: "v1".to_string(),
        kind: "Pod".to_string(),
        metadata: ObjectMeta::bare("p".to_string(), namespace.to_string(), 1),
        spec: PodSpec {
            node_name: None,
            containers: vec![],
            init_containers: vec![],
            restart_policy: RestartPolicy::Always,
            volumes: vec![],
            rest: String::new(),
        },
        status,
    }
}

fn service(namespace: &str, name: &str, ip: Option<&str>) -> ServiceTask {
    ServiceTask {
        api_version: "v1".to_string(),
        kind: "Service".to_string(),
        metadata: ObjectMeta::bare(name.to_string(), namespace.to_string(), 2),
        spec: ServiceSpec {
            service_type: "ClusterIP".to_string(),
            selector: None,
            ports: vec![],
            cluster_ip: ip.map(|s| s.to_string()),
        },
    }
}

fn authority() -> XlineAuthority {
    XlineAuthority { origin: cluster_zone(), object_cache: DnsObjectCache::new() }
}

#[test]
fn test_parse_service_query() {
    let name = dns_name("nginx.default.svc.cluster.local.");
    let origin = dns_name("svc.cluster.local.");

    let (svc, ns) = parse_service_query(&name, &origin).unwrap();

    assert_eq!(svc, "nginx");
    assert_eq!(ns, "default");
}

#[test]
fn queries_need_their_label() {
    let origin = cluster_zone();
    assert!(parse_service_query(&dns_name("a.b.pod.cluster.local."), &origin).is_none());
    assert!(parse_pod_query(&dns_name("a.b.svc.cluster.local."), &origin).is_none());
    assert_eq!(
        parse_pod_query(&dns_name("10-0-0-1.b.pod.cluster.local."), &origin),
        Some(("10-0-0-1".to_string(), "b".to_string()))
    );
    assert_eq!(
        parse_service_query(&dns_name("svc.cluster.local."), &origin),
        Some(("svc".to_string(), "".to_string()))
    );
    // A leading asterisk does not count as a label.
    assert_eq!(
        parse_service_query(&dns_name("*.svc.cluster.local."), &origin),
        Some(("*".to_string(), "".to_string()))
    );
    assert_eq!(dns_name("*.svc.cluster.local.").num_labels(), 3);
    // A label that is no text reads as an empty one.
    let broken = DnsName {
        labels: vec![vec![0xff], b"ns".to_vec(), b"svc".to_vec(), b"cluster".to_vec(), b"local".to_vec()],
    };
    assert_eq!(
        parse_service_query(&broken, &origin),
        Some(("".to_string(), "ns".to_string()))
    );
}

#[test]
fn noted_objects_are_found() {
    let pods = vec![pod("default", "10.244.1.5/24")];
    let services = vec![service("default", "nginx", Some("10.96.0.7"))];
    let (a, revision) = XlineAuthority::start(cluster_zone(), &pods, &services, 41);
    assert_eq!(revision, 42);
    assert_eq!(
        a.lookup(&dns_name("nginx.default.svc.cluster.local."), true),
        Some(Ipv4Addr::new(10, 96, 0, 7))
    );
    assert_eq!(a.lookup(&dns_name("nginx.default.svc.cluster.local."), false), None);
    assert_eq!(
        a.lookup(&dns_name("10-244-1-5.default.pod.cluster.local."), true),
        Some(Ipv4Addr::new(10, 244, 1, 5))
    );
    assert_eq!(a.lookup(&dns_name("10-244-1-5.other.pod.cluster.local."), true), None);
    assert!(!dns_name("local.").reaches(&cluster_zone()));
}

#[test]
fn changes_are_taken_over() {
    let mut a = authority();
    let on = a.watch_pods(&WatchReply::Changes(vec![
        PodChange::Put(Some(pod("ns", "10.0.0.9"))),
        PodChange::Put(None),
        PodChange::Delete(None),
    ]));
    assert!(on);
    let name = dns_name("10-0-0-9.ns.pod.cluster.local.");
    assert_eq!(a.lookup(&name, true), Some(Ipv4Addr::new(10, 0, 0, 9)));
    assert!(a.watch_pods(&WatchReply::Changes(vec![PodChange::Delete(Some(pod("ns", "10.0.0.9")))])));
    assert_eq!(a.lookup(&name, true), None);
    assert!(!a.watch_pods(&WatchReply::Failed));

    assert!(a.watch_services(&WatchReply::Changes(vec![ServiceChange::Put(Some(service(
        "ns",
        "web",
        Some("10.96.0.9")
    )))])));
    let web = dns_name("web.ns.svc.cluster.local.");
    assert_eq!(a.lookup(&web, true), Some(Ipv4Addr::new(10, 96, 0, 9)));
    let deleted =
        |key: &[u8]| WatchReply::Changes(vec![ServiceChange::Delete(Some(key.to_vec()))]);
    // A key without a namespace names no service.
    a.watch_services(&deleted(b"/registry/services/web"));
    assert_eq!(a.lookup(&web, true), Some(Ipv4Addr::new(10, 96, 0, 9)));
    a.watch_services(&deleted(b"/registry/services/ns/web"));
    assert_eq!(a.lookup(&web, true), None);
    // A service without a readable address has no answer.
    a.handle_service_change(&ServiceChange::Put(Some(service("ns", "web", Some("nowhere")))));
    assert_eq!(a.lookup(&web, true), None);
    assert!(!a.watch_services(&WatchReply::Failed));
}

#[test]
fn rules_lead_to_the_server() {
    assert_eq!(
        iptable_rules("cni0", "10.0.0.1", 5300),
        vec![
            "-i cni0 -p udp --dport 53 -j REDIRECT --to-ports 5300",
            "-i cni0 -p tcp --dport 53 -j REDIRECT --to-ports 5300",
            "-p udp -d 10.0.0.1 --dport 53 -j DNAT --to-destination 10.0.0.1:5300",
            "-p tcp -d 10.0.0.1 --dport 53 -j DNAT --to-destination 10.0.0.1:5300",
        ]
    );
    assert_eq!(setup_iptable(false), RuleAction::Append);
    assert_eq!(setup_iptable(true), RuleAction::Keep);
    assert_eq!(cleanup_iptable(true), RuleAction::Delete);
    assert_eq!(cleanup_iptable(false), RuleAction::Keep);
    assert_eq!(listen_address(53), "0.0.0.0:53");
}

//! Answering for the names of services and pods.
use vstd::prelude::*;
use crate::controllers::manager;
use crate::controllers::manager::decode_lossy;
use crate::dns::object_cache::{DnsObjectCache, DnsObjectCacheView, PodRecord, ServiceRecord};
use crate::network::address;
use crate::network::address::Ipv4Addr;
use crate::protocol::pod::{PodTask, PodTaskView};
use crate::protocol::service::{ServiceTask, ServiceTaskView};
use crate::text;
use crate::text::{bytes_of, concat2, concat4, decode, replace_text, split_char, str_eq, take_before, to_decimal, trim_start_text};

verus! {

/// How long an answer may be kept, in seconds.
pub const RECORD_TTL: u32 = 30;

/// A domain name: its labels, in lower case, the most specific first.
#[derive(Debug)]
pub struct DnsName {
    pub labels: Vec<Vec<u8>>,
}

impl View for DnsName {
    type V = Seq<Seq<u8>>;

    open spec fn view(&self) -> Seq<Seq<u8>> {
        Seq::new(self.labels@.len(), |i: int| self.labels@[i]@)
    }
}

/// The text of a label; a label that is no text counts as an empty one.
pub open spec fn label_text(l: Seq<u8>) -> Seq<char> {
    match text::utf8_text(l) {
        Some(t) => t,
        None => Seq::empty(),
    }
}

/// The number of labels of a name. A leading `*` does not count.
pub open spec fn label_count(n: Seq<Seq<u8>>) -> int {
    if n.len() > 0 && n[0] == seq![0x2au8] {
        n.len() - 1
    } else {
        n.len() as int
    }
}

/// Whether one of the labels is the word.
pub open spec fn has_label(n: Seq<Seq<u8>>, word: Seq<char>) -> bool {
    exists|i: int| 0 <= i < n.len() && label_text(#[trigger] n[i]) == word
}

/// The label at a position among the first `count`; empty where there is none.
pub open spec fn label_among(n: Seq<Seq<u8>>, count: int, i: int) -> Seq<char> {
    if i < count && i < n.len() {
        label_text(n[i])
    } else {
        Seq::empty()
    }
}

/// What a name asks for when it has the word as a label: the first and the second of the labels
/// before the zone's own.
pub open spec fn asked(
    name: Seq<Seq<u8>>,
    origin: Seq<Seq<u8>>,
    word: Seq<char>,
) -> Option<(Seq<char>, Seq<char>)> {
    if has_label(name, word) {
        let count = label_count(name) - label_count(origin);
        Some((label_among(name, count, 0), label_among(name, count, 1)))
    } else {
        None
    }
}

/// The two texts of a pair, when there is one.
pub open spec fn opt_pair(o: Option<(String, String)>) -> Option<(Seq<char>, Seq<char>)> {
    match o {
        Some((a, b)) => Some((a@, b@)),
        None => None,
    }
}

fn read_label(l: &Vec<u8>) -> (r: String)
    ensures
        r@ == label_text(l@),
{
    proof {
        reveal_strlit("");
        assert(""@ =~= Seq::<char>::empty());
    }
    match decode(l.as_slice()) {
        Some(t) => t,
        None => "".to_owned(),
    }
}

impl DnsName {
    /// The number of labels. A leading `*` does not count.
    pub fn num_labels(&self) -> (r: usize)
        ensures
            r == label_count(self@),
    {
        let n: usize = self.labels.len();
        if n > 0 && self.labels[0].len() == 1 && self.labels[0][0] == 0x2a {
            assert(self@[0] =~= seq![0x2au8]);
            n - 1
        } else {
            assert(n > 0 ==> self@[0] == self.labels@[0]@);
            n
        }
    }

    /// Whether the name has at least as many labels as the zone.
    pub fn reaches(&self, origin: &DnsName) -> (r: bool)
        ensures
            r == (label_count(origin@) <= label_count(self@)),
    {
        origin.num_labels() <= self.num_labels()
    }
}

fn parse_query(name: &DnsName, origin: &DnsName, word: &str) -> (r: Option<(String, String)>)
    requires
        has_label(name@, word@) ==> label_count(origin@) <= label_count(name@),
    ensures
        opt_pair(r) == asked(name@, origin@, word@),
{
    let mut found = false;
    for i in 0..name.labels.len()
        invariant
            found == exists|j: int| 0 <= j < i && label_text(#[trigger] name@[j]) == word@,
    {
        assert(name@[i as int] == name.labels@[i as int]@);
        let t = read_label(&name.labels[i]);
        if str_eq(t.as_str(), word) {
            found = true;
            assert(label_text(name@[i as int]) == word@);
        }
    }
    assert(found == has_label(name@, word@));
    if !found {
        return None;
    }
    let count: usize = name.num_labels() - origin.num_labels();
    let first = if count > 0 && name.labels.len() > 0 {
        read_label(&name.labels[0])
    } else {
        "".to_owned()
    };
    let second = if count > 1 && name.labels.len() > 1 {
        read_label(&name.labels[1])
    } else {
        "".to_owned()
    };
    proof {
        reveal_strlit("");
        assert(""@ =~= Seq::<char>::empty());
        assert(first@ == label_among(name@, count as int, 0));
        assert(second@ == label_among(name@, count as int, 1));
    }
    Some((first, second))
}

/// The service and the namespace that a name asks for:
/// `nginx.default.svc.cluster.local.` asks for `nginx` in `default`.
pub fn parse_service_query(name: &DnsName, origin: &DnsName) -> (r: Option<(String, String)>)
    requires
        has_label(name@, "svc"@) ==> label_count(origin@) <= label_count(name@),
    ensures
        opt_pair(r) == asked(name@, origin@, "svc"@),
{
    parse_query(name, origin, "svc")
}

/// The pod and the namespace that a name asks for.
pub fn parse_pod_query(name: &DnsName, origin: &DnsName) -> (r: Option<(String, String)>)
    requires
        has_label(name@, "pod"@) ==> label_count(origin@) <= label_count(name@),
    ensures
        opt_pair(r) == asked(name@, origin@, "pod"@),
{
    parse_query(name, origin, "pod")
}

/// The address of a record, when there is a record and it has one.
pub open spec fn address_at(
    m: Map<(Seq<char>, Seq<char>), Option<Ipv4Addr>>,
    q: Option<(Seq<char>, Seq<char>)>,
) -> Option<Ipv4Addr> {
    match q {
        Some((name, namespace)) => if m.contains_key((namespace, name)) {
            m[(namespace, name)]
        } else {
            None
        },
        None => None,
    }
}

/// The answer for a name: the address of the service that it asks for, or else of the pod. Only
/// questions for IPv4 addresses have one.
pub open spec fn answer(
    cache: DnsObjectCacheView,
    name: Seq<Seq<u8>>,
    origin: Seq<Seq<u8>>,
    for_address: bool,
) -> Option<Ipv4Addr> {
    if !for_address {
        None
    } else {
        match address_at(cache.services, asked(name, origin, "svc"@)) {
            Some(ip) => Some(ip),
            None => address_at(cache.pods, asked(name, origin, "pod"@)),
        }
    }
}

/// The text before the mask of a pod's address; empty for a pod without an address.
pub open spec fn bare_address(ip: Option<Seq<char>>) -> Seq<char> {
    match ip {
        Some(t) => text::before_char(t, '/'),
        None => Seq::empty(),
    }
}

/// The name under which a pod is known: its address with dashes for dots.
pub open spec fn pod_name(ip: Option<Seq<char>>) -> Seq<char> {
    text::replaced(bare_address(ip), "."@, "-"@)
}

/// The records with a pod.
pub open spec fn with_pod(c: DnsObjectCacheView, pod: PodTaskView) -> DnsObjectCacheView {
    c.with_pod(
        pod.metadata.namespace,
        pod_name(pod.status.pod_ip),
        address::ipv4_of(bare_address(pod.status.pod_ip)),
    )
}

/// The records without a pod.
pub open spec fn without_pod(c: DnsObjectCacheView, pod: PodTaskView) -> DnsObjectCacheView {
    c.without_pod(pod.metadata.namespace, pod_name(pod.status.pod_ip))
}

/// The address of a service, when it has one.
pub open spec fn service_address(svc: ServiceTaskView) -> Option<Ipv4Addr> {
    match svc.spec.cluster_ip {
        Some(t) => address::ipv4_of(t),
        None => None,
    }
}

/// The records with a service.
pub open spec fn with_service(c: DnsObjectCacheView, svc: ServiceTaskView) -> DnsObjectCacheView {
    c.with_service(svc.metadata.namespace, svc.metadata.name, service_address(svc))
}

/// The records without a service.
pub open spec fn without_service(c: DnsObjectCacheView, svc: ServiceTaskView) -> DnsObjectCacheView {
    c.without_service(svc.metadata.namespace, svc.metadata.name)
}

/// The records after the service at a key is deleted. The key names the service by its namespace
/// and its name; one without a namespace names none.
pub open spec fn without_service_at(c: DnsObjectCacheView, key: Seq<char>) -> DnsObjectCacheView {
    let parts = text::split_on(text::drop_prefixes(key, "/registry/services/"@), '/');
    if parts.len() >= 2 {
        c.without_service(parts[0], parts[1])
    } else {
        c
    }
}

/// The records with each of the pods, the first one first.
pub open spec fn with_pods(c: DnsObjectCacheView, pods: Seq<PodTaskView>) -> DnsObjectCacheView
    decreases pods.len(),
{
    if pods.len() == 0 {
        c
    } else {
        with_pod(with_pods(c, pods.drop_last()), pods.last())
    }
}

/// The records with each of the services, the first one first.
pub open spec fn with_services(
    c: DnsObjectCacheView,
    services: Seq<ServiceTaskView>,
) -> DnsObjectCacheView
    decreases services.len(),
{
    if services.len() == 0 {
        c
    } else {
        with_service(with_services(c, services.drop_last()), services.last())
    }
}

fn bare_address_of(pod: &PodTask) -> (r: String)
    ensures
        r@ == bare_address(pod.deep_view().status.pod_ip),
{
    match &pod.status.pod_ip {
        Some(t) => take_before(t.as_str(), '/'),
        None => {
            proof {
                reveal_strlit("");
                assert(""@ =~= Seq::<char>::empty());
            }
            "".to_owned()
        },
    }
}

/// The record of a pod.
pub fn pod_record(pod: &PodTask) -> (r: PodRecord)
    ensures
        r.namespace@ == pod.metadata.namespace@,
        r.name@ == pod_name(pod.deep_view().status.pod_ip),
        r.pod_ip == address::ipv4_of(bare_address(pod.deep_view().status.pod_ip)),
{
    let bare = bare_address_of(pod);
    proof {
        reveal_strlit(".");
    }
    let name = replace_text(bare.as_str(), ".", "-");
    let pod_ip = Ipv4Addr::parse(bare.as_str());
    PodRecord { name, namespace: pod.metadata.namespace.clone(), pod_ip }
}

/// The record of a service.
pub fn service_record(svc: &ServiceTask) -> (r: ServiceRecord)
    ensures
        r.namespace@ == svc.metadata.namespace@,
        r.name@ == svc.metadata.name@,
        r.cluster_ip == service_address(svc.deep_view()),
{
    let cluster_ip = match &svc.spec.cluster_ip {
        Some(t) => Ipv4Addr::parse(t.as_str()),
        None => None,
    };
    ServiceRecord {
        name: svc.metadata.name.clone(),
        namespace: svc.metadata.namespace.clone(),
        cluster_ip,
    }
}

/// A change of a stored pod. A value that is missing or cannot be read is `None`; a deletion
/// brings the value from before.
#[derive(Debug)]
pub enum PodChange {
    Put(Option<PodTask>),
    Delete(Option<PodTask>),
}

/// A change of a stored service. A put brings the value where it can be read, a deletion the key
/// where it is known what was there.
#[derive(Debug)]
pub enum ServiceChange {
    Put(Option<ServiceTask>),
    Delete(Option<Vec<u8>>),
}

/// The records after a change of a pod.
pub open spec fn after_pod(c: DnsObjectCacheView, change: PodChange) -> DnsObjectCacheView {
    match change {
        PodChange::Put(Some(pod)) => with_pod(c, pod.deep_view()),
        PodChange::Delete(Some(pod)) => without_pod(c, pod.deep_view()),
        _ => c,
    }
}

/// The records after a change of a service.
pub open spec fn after_service(c: DnsObjectCacheView, change: ServiceChange) -> DnsObjectCacheView {
    match change {
        ServiceChange::Put(Some(svc)) => with_service(c, svc.deep_view()),
        ServiceChange::Delete(Some(key)) => without_service_at(c, manager::lossy_text(key@)),
        _ => c,
    }
}

/// The records after changes of pods, the first one first.
pub open spec fn after_pods(c: DnsObjectCacheView, changes: Seq<PodChange>) -> DnsObjectCacheView
    decreases changes.len(),
{
    if changes.len() == 0 {
        c
    } else {
        after_pod(after_pods(c, changes.drop_last()), changes.last())
    }
}

/// The records after changes of services, the first one first.
pub open spec fn after_services(
    c: DnsObjectCacheView,
    changes: Seq<ServiceChange>,
) -> DnsObjectCacheView
    decreases changes.len(),
{
    if changes.len() == 0 {
        c
    } else {
        after_service(after_services(c, changes.drop_last()), changes.last())
    }
}

/// What a watch brings next: changes, or its end.
#[derive(Debug)]
pub enum WatchReply<T> {
    Changes(Vec<T>),
    Failed,
}

/// The zone of the cluster and what is known of it.
#[derive(Debug)]
pub struct XlineAuthority {
    pub origin: DnsName,
    pub object_cache: DnsObjectCache,
}

impl XlineAuthority {
    /// The answer for a name, to be kept for `RECORD_TTL` seconds. `None` is an empty answer.
    pub fn lookup(&self, name: &DnsName, for_address: bool) -> (r: Option<Ipv4Addr>)
        requires
            has_label(name@, "svc"@) ==> label_count(self.origin@) <= label_count(name@),
            has_label(name@, "pod"@) ==> label_count(self.origin@) <= label_count(name@),
        ensures
            r == answer(self.object_cache@, name@, self.origin@, for_address),
    {
        if let Some((svc_name, ns)) = parse_service_query(name, &self.origin) {
            if for_address {
                if let Some(ip) = self.object_cache.service_ip(ns.as_str(), svc_name.as_str()) {
                    return Some(ip);
                }
            }
        }
        if let Some((pod, ns)) = parse_pod_query(name, &self.origin) {
            if for_address {
                if let Some(ip) = self.object_cache.pod_ip(ns.as_str(), pod.as_str()) {
                    return Some(ip);
                }
            }
        }
        None
    }

    /// Adds the stored pods and services to the records.
    pub fn init_from_store(&mut self, pods: &Vec<PodTask>, services: &Vec<ServiceTask>)
        ensures
            final(self).origin == old(self).origin,
            old(self).object_cache.wf() ==> final(self).object_cache.wf(),
            final(self).object_cache@ == with_services(
                with_pods(old(self).object_cache@, pods@.map_values(|p: PodTask| p.deep_view())),
                services@.map_values(|s: ServiceTask| s.deep_view()),
            ),
    {
        let ghost c = self.object_cache@;
        let ghost origin = self.origin;
        let ghost p = pods@.map_values(|p: PodTask| p.deep_view());
        let ghost s = services@.map_values(|s: ServiceTask| s.deep_view());
        assert(p.take(0) =~= Seq::empty());
        for i in 0..pods.len()
            invariant
                self.origin == origin,
                old(self).object_cache.wf() ==> self.object_cache.wf(),
                p == pods@.map_values(|p: PodTask| p.deep_view()),
                self.object_cache@ == with_pods(c, p.take(i as int)),
        {
            self.object_cache.insert_pod(pod_record(&pods[i]));
            assert(p.take(i + 1).drop_last() =~= p.take(i as int));
        }
        assert(p.take(pods.len() as int) =~= p);
        let ghost d = self.object_cache@;
        assert(s.take(0) =~= Seq::empty());
        for i in 0..services.len()
            invariant
                self.origin == origin,
                old(self).object_cache.wf() ==> self.object_cache.wf(),
                s == services@.map_values(|s: ServiceTask| s.deep_view()),
                self.object_cache@ == with_services(d, s.take(i as int)),
        {
            self.object_cache.insert_service(service_record(&services[i]));
            assert(s.take(i + 1).drop_last() =~= s.take(i as int));
        }
        assert(s.take(services.len() as int) =~= s);
    }

    /// Takes over a change of a pod.
    pub fn handle_pod_change(&mut self, change: &PodChange)
        ensures
            final(self).origin == old(self).origin,
            old(self).object_cache.wf() ==> final(self).object_cache.wf(),
            final(self).object_cache@ == after_pod(old(self).object_cache@, *change),
    {
        match change {
            PodChange::Put(Some(pod)) => {
                self.object_cache.insert_pod(pod_record(pod));
            },
            PodChange::Delete(Some(pod)) => {
                let record = pod_record(pod);
                self.object_cache.remove_pod(record.namespace.as_str(), record.name.as_str());
            },
            _ => {},
        }
    }

    /// Takes over a change of a service.
    pub fn handle_service_change(&mut self, change: &ServiceChange)
        ensures
            final(self).origin == old(self).origin,
            old(self).object_cache.wf() ==> final(self).object_cache.wf(),
            final(self).object_cache@ == after_service(old(self).object_cache@, *change),
    {
        match change {
            ServiceChange::Put(Some(svc)) => {
                self.object_cache.insert_service(service_record(svc));
            },
            ServiceChange::Delete(Some(key)) => {
                let key_text = decode_lossy(key.as_slice());
                self.remove_service_at(key_text.as_str());
            },
            _ => {},
        }
    }

    /// Removes the service that a key names.
    pub fn remove_service_at(&mut self, key: &str)
        ensures
            final(self).origin == old(self).origin,
            old(self).object_cache.wf() ==> final(self).object_cache.wf(),
            final(self).object_cache@ == without_service_at(old(self).object_cache@, key@),
    {
        proof {
            reveal_strlit("/registry/services/");
        }
        let rest = trim_start_text(key, "/registry/services/");
        let parts = split_char(rest.as_str(), '/');
        assert(text::texts(parts@).len() == parts@.len());
        if parts.len() >= 2 {
            assert(text::texts(parts@)[0] == parts@[0]@);
            assert(text::texts(parts@)[1] == parts@[1]@);
            self.object_cache.remove_service(parts[0].as_str(), parts[1].as_str());
        }
    }

    /// Takes over what the watch on pods brings: whether to go on watching.
    pub fn watch_pods(&mut self, reply: &WatchReply<PodChange>) -> (r: bool)
        ensures
            final(self).origin == old(self).origin,
            old(self).object_cache.wf() ==> final(self).object_cache.wf(),
            r == (reply is Changes),
            final(self).object_cache@ == match *reply {
                WatchReply::Changes(v) => after_pods(old(self).object_cache@, v@),
                WatchReply::Failed => old(self).object_cache@,
            },
    {
        match reply {
            WatchReply::Changes(v) => {
                let ghost c = self.object_cache@;
                let ghost origin = self.origin;
                assert(v@.take(0) =~= Seq::empty());
                for i in 0..v.len()
                    invariant
                        self.origin == origin,
                        old(self).object_cache.wf() ==> self.object_cache.wf(),
                        self.object_cache@ == after_pods(c, v@.take(i as int)),
                {
                    self.handle_pod_change(&v[i]);
                    assert(v@.take(i + 1).drop_last() =~= v@.take(i as int));
                }
                assert(v@.take(v.len() as int) =~= v@);
                true
            },
            WatchReply::Failed => false,
        }
    }

    /// Takes over what the watch on services brings: whether to go on watching.
    pub fn watch_services(&mut self, reply: &WatchReply<ServiceChange>) -> (r: bool)
        ensures
            final(self).origin == old(self).origin,
            old(self).object_cache.wf() ==> final(self).object_cache.wf(),
            r == (reply is Changes),
            final(self).object_cache@ == match *reply {
                WatchReply::Changes(v) => after_services(old(self).object_cache@, v@),
                WatchReply::Failed => old(self).object_cache@,
            },
    {
        match reply {
            WatchReply::Changes(v) => {
                let ghost c = self.object_cache@;
                let ghost origin = self.origin;
                assert(v@.take(0) =~= Seq::empty());
                for i in 0..v.len()
                    invariant
                        self.origin == origin,
                        old(self).object_cache.wf() ==> self.object_cache.wf(),
                        self.object_cache@ == after_services(c, v@.take(i as int)),
                {
                    self.handle_service_change(&v[i]);
                    assert(v@.take(i + 1).drop_last() =~= v@.take(i as int));
                }
                assert(v@.take(v.len() as int) =~= v@);
                true
            },
            WatchReply::Failed => false,
        }
    }

    /// The zone with the stored pods and services, and the revision from which on to watch for
    /// changes of them: the one after the snapshot's.
    pub fn start(
        origin: DnsName,
        pods: &Vec<PodTask>,
        services: &Vec<ServiceTask>,
        revision: i64,
    ) -> (r: (XlineAuthority, i64))
        requires
            revision < i64::MAX,
        ensures
            r.0.origin == origin,
            r.0.object_cache.wf(),
            r.0.object_cache@ == with_services(
                with_pods(
                    DnsObjectCacheView::empty(),
                    pods@.map_values(|p: PodTask| p.deep_view()),
                ),
                services@.map_values(|s: ServiceTask| s.deep_view()),
            ),
            r.1 == revision + 1,
    {
        let mut authority = XlineAuthority { origin, object_cache: DnsObjectCache::new() };
        authority.init_from_store(pods, services);
        (authority, revision + 1)
    }
}

/// The zone of the cluster: `cluster.local.`.
pub fn cluster_zone() -> (r: DnsName)
    ensures
        r@ == seq![vstd::utf8::encode_utf8("cluster"@), vstd::utf8::encode_utf8("local"@)],
{
    let mut labels: Vec<Vec<u8>> = Vec::new();
    labels.push(bytes_of("cluster"));
    labels.push(bytes_of("local"));
    let r = DnsName { labels };
    assert(r@[0] =~= vstd::utf8::encode_utf8("cluster"@));
    assert(r@[1] =~= vstd::utf8::encode_utf8("local"@));
    assert(r@ =~= seq![vstd::utf8::encode_utf8("cluster"@), vstd::utf8::encode_utf8("local"@)]);
    r
}

/// Where the server listens: the port on every interface.
pub fn listen_address(port: u16) -> (r: String)
    ensures
        r@ == "0.0.0.0:"@ + text::decimal(port as nat),
{
    concat2("0.0.0.0:", to_decimal(port as u64).as_str())
}

/// The rule that hands what comes in at the bridge for the DNS port to the server.
pub open spec fn redirect_rule(bridge: Seq<char>, protocol: Seq<char>, port: u16) -> Seq<char> {
    "-i "@ + bridge + " -p "@ + protocol + " --dport 53 -j REDIRECT --to-ports "@ + text::decimal(
        port as nat,
    )
}

/// The rule that hands what is sent to the address for the DNS port to the server there.
pub open spec fn forward_rule(protocol: Seq<char>, ip: Seq<char>, port: u16) -> Seq<char> {
    "-p "@ + protocol + " -d "@ + ip + " --dport 53 -j DNAT --to-destination "@ + ip + ":"@
        + text::decimal(port as nat)
}

/// The bridge on which pods send, when none is set.
pub fn default_bridge() -> (r: String)
    ensures
        r@ == "cni0"@,
{
    "cni0".to_owned()
}

/// The rules through which DNS questions reach the server, in the order in which they are set.
pub fn iptable_rules(bridge: &str, dns_ip: &str, dns_port: u16) -> (r: Vec<String>)
    ensures
        text::texts(r@) == seq![
            redirect_rule(bridge@, "udp"@, dns_port),
            redirect_rule(bridge@, "tcp"@, dns_port),
            forward_rule("udp"@, dns_ip@, dns_port),
            forward_rule("tcp"@, dns_ip@, dns_port),
        ],
{
    let mut r: Vec<String> = Vec::new();
    r.push(redirect_text(bridge, "udp", dns_port));
    r.push(redirect_text(bridge, "tcp", dns_port));
    r.push(forward_text("udp", dns_ip, dns_port));
    r.push(forward_text("tcp", dns_ip, dns_port));
    assert(text::texts(r@) =~= seq![
        redirect_rule(bridge@, "udp"@, dns_port),
        redirect_rule(bridge@, "tcp"@, dns_port),
        forward_rule("udp"@, dns_ip@, dns_port),
        forward_rule("tcp"@, dns_ip@, dns_port),
    ]);
    r
}

fn redirect_text(bridge: &str, protocol: &str, port: u16) -> (r: String)
    ensures
        r@ == redirect_rule(bridge@, protocol@, port),
{
    let mut s = concat4("-i ", bridge, " -p ", protocol);
    s.append(" --dport 53 -j REDIRECT --to-ports ");
    s.append(to_decimal(port as u64).as_str());
    s
}

fn forward_text(protocol: &str, ip: &str, port: u16) -> (r: String)
    ensures
        r@ == forward_rule(protocol@, ip@, port),
{
    let mut s = concat4("-p ", protocol, " -d ", ip);
    s.append(" --dport 53 -j DNAT --to-destination ");
    s.append(ip);
    s.append(":");
    s.append(to_decimal(port as u64).as_str());
    s
}

/// What to do with a rule of the table.
#[derive(Debug, Clone, Copy, PartialEq, Eq, Structural)]
pub enum RuleAction {
    Append,
    Delete,
    Keep,
}

/// The rules of a table after an action on one of them.
pub open spec fn rules_after(
    table: Set<Seq<char>>,
    rule: Seq<char>,
    action: RuleAction,
) -> Set<Seq<char>> {
    match action {
        RuleAction::Append => table.insert(rule),
        RuleAction::Delete => table.remove(rule),
        RuleAction::Keep => table,
    }
}

/// What setting up does with a rule: it is appended unless it is there.
pub open spec fn set_up(present: bool) -> RuleAction {
    if present {
        RuleAction::Keep
    } else {
        RuleAction::Append
    }
}

/// What cleaning up does with a rule: it is deleted if it is there.
pub open spec fn cleaned_up(present: bool) -> RuleAction {
    if present {
        RuleAction::Delete
    } else {
        RuleAction::Keep
    }
}

/// What setting up does with a rule: it is appended unless it is there.
pub fn setup_iptable(present: bool) -> (r: RuleAction)
    ensures
        r == set_up(present),
{
    if present {
        RuleAction::Keep
    } else {
        RuleAction::Append
    }
}

/// What cleaning up does with a rule: it is deleted if it is there.
pub fn cleanup_iptable(present: bool) -> (r: RuleAction)
    ensures
        r == cleaned_up(present),
{
    if present {
        RuleAction::Delete
    } else {
        RuleAction::Keep
    }
}

/// After setting up, the rule is there, once more setting up does nothing, and cleaning up takes
/// the rule out and nothing else.
pub proof fn law_cleanup_undoes_setup(table: Set<Seq<char>>, rule: Seq<char>)
    ensures
        ({
            let with = rules_after(table, rule, set_up(table.contains(rule)));
            let without = rules_after(with, rule, cleaned_up(with.contains(rule)));
            &&& with.contains(rule)
            &&& set_up(with.contains(rule)) is Keep
            &&& without == table.remove(rule)
        }),
{
    let with = rules_after(table, rule, set_up(table.contains(rule)));
    assert(with.remove(rule) =~= table.remove(rule));
}

/// A name as the question for a pod or a service in a namespace: `name.namespace.word` and the
/// zone behind it.
pub open spec fn question(
    name: Seq<char>,
    namespace: Seq<char>,
    word: Seq<char>,
    origin: Seq<Seq<u8>>,
) -> Seq<Seq<u8>> {
    seq![
        vstd::utf8::encode_utf8(name),
        vstd::utf8::encode_utf8(namespace),
        vstd::utf8::encode_utf8(word),
    ] + origin
}

proof fn lemma_question(
    name: Seq<char>,
    namespace: Seq<char>,
    word: Seq<char>,
    origin: Seq<Seq<u8>>,
)
    requires
        name != seq!['*'],
    ensures
        asked(question(name, namespace, word, origin), origin, word) == Some((name, namespace)),
{
    broadcast use {
        vstd::utf8::encode_utf8_decode_utf8,
        vstd::utf8::encode_utf8_valid_utf8,
        vstd::utf8::decode_utf8_encode_utf8,
    };

    let q = question(name, namespace, word, origin);
    assert(q[0] == vstd::utf8::encode_utf8(name));
    assert(q[1] == vstd::utf8::encode_utf8(namespace));
    assert(q[2] == vstd::utf8::encode_utf8(word));
    assert(label_text(q[2]) == word);
    assert(has_label(q, word));
    assert(label_text(q[0]) == name);
    assert(label_text(q[1]) == namespace);
    let star = seq!['*'];
    assert(vstd::utf8::is_ascii_chars(star));
    vstd::utf8::is_ascii_chars_encode_utf8(star);
    assert(vstd::utf8::encode_utf8(star) =~= seq![0x2au8]);
    if q[0] == seq![0x2au8] {
        assert(vstd::utf8::decode_utf8(q[0]) == star);
        assert(false);
    }
}

proof fn lemma_replaced_length(s: Seq<char>, pat: Seq<char>, with: Seq<char>)
    requires
        pat.len() == with.len(),
    ensures
        text::replaced(s, pat, with).len() == s.len(),
    decreases s.len(),
{
    if pat.len() != 0 && s.len() != 0 {
        if pat.is_prefix_of(s) {
            lemma_replaced_length(s.skip(pat.len() as int), pat, with);
        } else {
            lemma_replaced_length(s.skip(1), pat, with);
        }
    }
}

proof fn lemma_pieces(s: Seq<char>, c: char)
    ensures
        text::split_on(s, c).len() <= s.len() + 1,
    decreases s.len(),
{
    let i = text::index_from(s, c, 0);
    if s.contains(c) && 0 <= i < s.len() {
        lemma_pieces(s.skip(i + 1), c);
    }
}

/// A service that is noted is found under its name and namespace.
pub proof fn law_noted_service_is_found(
    c: DnsObjectCacheView,
    svc: ServiceTaskView,
    origin: Seq<Seq<u8>>,
)
    requires
        service_address(svc) is Some,
        svc.metadata.name != seq!['*'],
    ensures
        answer(
            with_service(c, svc),
            question(svc.metadata.name, svc.metadata.namespace, "svc"@, origin),
            origin,
            true,
        ) == service_address(svc),
{
    lemma_question(svc.metadata.name, svc.metadata.namespace, "svc"@, origin);
}

/// A pod that is noted is found under its address with dashes, unless the same name asks for a
/// service.
pub proof fn law_noted_pod_is_found(c: DnsObjectCacheView, pod: PodTaskView, origin: Seq<Seq<u8>>)
    requires
        address::ipv4_of(bare_address(pod.status.pod_ip)) is Some,
        ({
            let q = question(
                pod_name(pod.status.pod_ip),
                pod.metadata.namespace,
                "pod"@,
                origin,
            );
            address_at(c.services, asked(q, origin, "svc"@)) is None
        }),
    ensures
        answer(
            with_pod(c, pod),
            question(pod_name(pod.status.pod_ip), pod.metadata.namespace, "pod"@, origin),
            origin,
            true,
        ) == address::ipv4_of(bare_address(pod.status.pod_ip)),
{
    let bare = bare_address(pod.status.pod_ip);
    reveal_strlit(".");
    reveal_strlit("-");
    lemma_replaced_length(bare, "."@, "-"@);
    lemma_pieces(bare, '.');
    lemma_question(pod_name(pod.status.pod_ip), pod.metadata.namespace, "pod"@, origin);
}

/// The key of a service names its namespace and its name.
proof fn lemma_service_key(namespace: Seq<char>, name: Seq<char>)
    requires
        !namespace.contains('/'),
        !name.contains('/'),
    ensures
        text::split_on(
            text::drop_prefixes(service_key(namespace, name), "/registry/services/"@),
            '/',
        ) == seq![namespace, name],
{
    reveal_strlit("/registry/services/");
    reveal_strlit("/");
    let p = "/registry/services/"@;
    let rest = namespace + seq!['/'] + name;
    let s = service_key(namespace, name);
    assert(s =~= p + rest);
    assert(s.take(p.len() as int) =~= p);
    assert(p.is_prefix_of(s));
    assert(s.skip(p.len() as int) =~= rest);
    if p.is_prefix_of(rest) {
        assert(rest[0] == p[0]);
        assert(rest[9] == p[9]);
        if namespace.len() > 0 {
            assert(namespace[0] == rest[0]);
            assert(namespace.contains('/'));
        } else {
            assert(name[8] == rest[9]);
            assert(name.contains('/'));
        }
    }
    assert(text::drop_prefixes(rest, p) == rest);
    assert(text::drop_prefixes(s, p) == rest);
    text::lemma_split_first(namespace, name, '/');
    text::lemma_split_none(name, '/');
    assert(seq![namespace] + seq![name] =~= seq![namespace, name]);
}

/// The key that names a service by its namespace and its name.
pub open spec fn service_key(namespace: Seq<char>, name: Seq<char>) -> Seq<char> {
    "/registry/services/"@ + namespace + "/"@ + name
}

/// A service that is deleted at a key that names it is forgotten: it is not found any more, and the
/// records are as they were before it was noted, where it was not known then.
pub proof fn law_deleted_service_is_forgotten(c: DnsObjectCacheView, svc: ServiceTaskView)
    requires
        !svc.metadata.namespace.contains('/'),
        !svc.metadata.name.contains('/'),
    ensures
        ({
            let place = (svc.metadata.namespace, svc.metadata.name);
            let after = without_service_at(with_service(c, svc), service_key(place.0, place.1));
            &&& !after.services.contains_key(place)
            &&& address_at(after.services, Some((place.1, place.0))) is None
            &&& !c.services.contains_key(place) ==> after == c
        }),
{
    lemma_service_key(svc.metadata.namespace, svc.metadata.name);
    let after = without_service(with_service(c, svc), svc);
    if !c.services.contains_key((svc.metadata.namespace, svc.metadata.name)) {
        assert(after.services =~= c.services);
        assert(after =~= c);
    }
}

/// Deleting a pod undoes noting it, where it was not known before.
pub proof fn law_deleted_pod_is_forgotten(c: DnsObjectCacheView, pod: PodTaskView)
    requires
        !c.pods.contains_key((pod.metadata.namespace, pod_name(pod.status.pod_ip))),
    ensures
        without_pod(with_pod(c, pod), pod) == c,
{
    assert(without_pod(with_pod(c, pod), pod).pods =~= c.pods);
}

/// A pod is noted under its address, without the prefix length, with dashes for the dots.
pub proof fn law_pod_is_noted_by_its_address(pod: PodTask, r: PodRecord)
    requires
        call_ensures(pod_record, (&pod,), r),
    ensures
        r.namespace@ == pod.metadata.namespace@,
        pod.status.pod_ip is None ==> r.name@.len() == 0,
        pod.status.pod_ip matches Some(t) ==> {
            let n = r.name@.len() as int;
            &&& n <= t@.len()
            &&& n < t@.len() ==> t@[n] == '/'
            &&& forall|i: int|
                0 <= i < n ==> #[trigger] t@[i] != '/' && r.name@[i] == if t@[i] == '.' {
                    '-'
                } else {
                    t@[i]
                }
            &&& r.pod_ip == address::ipv4_of(t@.take(n))
        },
{
    reveal_strlit(".");
    reveal_strlit("-");
    assert("."@ =~= seq!['.']);
    assert("-"@ =~= seq!['-']);
    let bare = bare_address(pod.deep_view().status.pod_ip);
    text::lemma_character_replaced(bare, '.', '-');
    if let Some(t) = pod.status.pod_ip {
        text::lemma_index_from(t@, '/', 0);
        assert(pod.deep_view().status.pod_ip == Some(t@));
        assert forall|i: int| 0 <= i < r.name@.len() implies #[trigger] t@[i] != '/' && r.name@[i]
            == if t@[i] == '.' {
            '-'
        } else {
            t@[i]
        } by {
            assert(bare[i] == t@[i]);
        }
    }
}

/// A service is noted under its name with the address that it has.
pub proof fn law_service_is_noted_by_its_name(svc: ServiceTask, r: ServiceRecord)
    requires
        call_ensures(service_record, (&svc,), r),
    ensures
        r.namespace@ == svc.metadata.namespace@,
        r.name@ == svc.metadata.name@,
        svc.spec.cluster_ip is None ==> r.cluster_ip is None,
        svc.spec.cluster_ip matches Some(t) ==> r.cluster_ip == address::ipv4_of(t@),
{
    assert(svc.deep_view().spec.cluster_ip == text::opt_text(svc.spec.cluster_ip));
}

/// After a service was stored, a question for its name in its namespace is answered with its
/// address.
pub proof fn law_stored_service_is_answered(
    authority: &mut XlineAuthority,
    svc: ServiceTask,
    after: XlineAuthority,
    name: DnsName,
    r: Option<Ipv4Addr>,
)
    requires
        call_ensures(
            XlineAuthority::handle_service_change,
            (authority, &ServiceChange::Put(Some(svc))),
            (),
        ),
        call_ensures(XlineAuthority::lookup, (&after, &name, true), r),
        svc.metadata.name@ != seq!['*'],
        name@ == question(svc.metadata.name@, svc.metadata.namespace@, "svc"@, after.origin@),
        svc.spec.cluster_ip is Some,
        address::ipv4_of(svc.spec.cluster_ip->0@) is Some,
    ensures
        after == *final(authority) ==> r == address::ipv4_of(svc.spec.cluster_ip->0@),
        final(authority).origin == old(authority).origin,
{
    lemma_question(svc.metadata.name@, svc.metadata.namespace@, "svc"@, after.origin@);
    assert(svc.deep_view().spec.cluster_ip == text::opt_text(svc.spec.cluster_ip));
    assert(svc.deep_view().metadata.name == svc.metadata.name@);
    assert(svc.deep_view().metadata.namespace == svc.metadata.namespace@);
}

/// Only questions for an address are answered, and only from what is noted. A service goes before
/// a pod.
pub proof fn law_answers_come_from_what_is_noted(
    authority: XlineAuthority,
    name: DnsName,
    for_address: bool,
    r: Option<Ipv4Addr>,
)
    requires
        call_ensures(XlineAuthority::lookup, (&authority, &name, for_address), r),
    ensures
        !for_address ==> r is None,
        r matches Some(ip) ==> (exists|k: (Seq<char>, Seq<char>)|
            #[trigger] authority.object_cache.service_cache@.contains_key(k)
                && authority.object_cache.service_cache@[k].cluster_ip == Some(ip)) || (exists|
            k: (Seq<char>, Seq<char>),
        |
            #[trigger] authority.object_cache.pod_cache@.contains_key(k)
                && authority.object_cache.pod_cache@[k].pod_ip == Some(ip)),
{
    let c = authority.object_cache;
    assert(c@.services =~= c.service_cache@.map_values(
        crate::dns::object_cache::service_address(),
    ));
    assert(c@.pods =~= c.pod_cache@.map_values(crate::dns::object_cache::pod_address()));
    if let Some((n, ns)) = asked(name@, authority.origin@, "svc"@) {
        if c@.services.contains_key((ns, n)) {
            assert(c.service_cache@.contains_key((ns, n)));
        }
    }
    if let Some((n, ns)) = asked(name@, authority.origin@, "pod"@) {
        if c@.pods.contains_key((ns, n)) {
            assert(c.pod_cache@.contains_key((ns, n)));
        }
    }
}

/// A service that was deleted is not known any more, and the other records stay.
pub proof fn law_deletion_forgets_the_service(
    authority: &mut XlineAuthority,
    key: &str,
    namespace: Seq<char>,
    name: Seq<char>,
)
    requires
        call_ensures(XlineAuthority::remove_service_at, (authority, key), ()),
        !namespace.contains('/'),
        !name.contains('/'),
        key@ == "/registry/services/"@ + namespace + "/"@ + name,
    ensures
        !final(authority).object_cache@.services.contains_key((namespace, name)),
        final(authority).object_cache@.services == old(authority).object_cache@.services.remove(
            (namespace, name),
        ),
        final(authority).object_cache@.pods == old(authority).object_cache@.pods,
{
    lemma_service_key(namespace, name);
}

/// A rule is in the table after it was set up, is not set up twice, and is gone after it was
/// cleaned up.
pub proof fn law_rules_are_set_up_once(present: bool, up: RuleAction, down: RuleAction)
    requires
        call_ensures(setup_iptable, (present,), up),
        call_ensures(cleanup_iptable, (present,), down),
    ensures
        up == RuleAction::Append <==> !present,
        up == RuleAction::Keep <==> present,
        down == RuleAction::Delete <==> present,
        down == RuleAction::Keep <==> !present,
{
}

/// Requests to the name service that come in at the bridge, or go to its address, are led to its
/// port, for both protocols.
pub proof fn law_requests_are_led_to_the_port(bridge: &str, ip: &str, port: u16, r: Vec<String>)
    requires
        call_ensures(iptable_rules, (bridge, ip, port), r),
    ensures
        r@.len() == 4,
        r@[0]@ == "-i "@ + bridge@ + " -p "@ + "udp"@ + " --dport 53 -j REDIRECT --to-ports "@
            + text::decimal(port as nat),
        r@[1]@ == "-i "@ + bridge@ + " -p "@ + "tcp"@ + " --dport 53 -j REDIRECT --to-ports "@
            + text::decimal(port as nat),
        r@[2]@ == "-p "@ + "udp"@ + " -d "@ + ip@ + " --dport 53 -j DNAT --to-destination "@ + ip@
            + ":"@ + text::decimal(port as nat),
        r@[3]@ == "-p "@ + "tcp"@ + " -d "@ + ip@ + " --dport 53 -j DNAT --to-destination "@ + ip@
            + ":"@ + text::decimal(port as nat),
{
    assert(text::texts(r@).len() == r@.len());
    assert(text::texts(r@)[0] == r@[0]@);
    assert(text::texts(r@)[1] == r@[1]@);
    assert(text::texts(r@)[2] == r@[2]@);
    assert(text::texts(r@)[3] == r@[3]@);
}

} // verus!

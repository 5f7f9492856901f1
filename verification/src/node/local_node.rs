//! The control plane's own node.
use vstd::prelude::*;
use crate::network::address;
use crate::network::address::{Ipv4Addr, Ipv4Network, Ipv6Network};
use crate::network::backend::interface::ExternalInterface;
use crate::network::config::Config;
use crate::network::lease::{LeaseAttrs, LeaseAttrsView};
use crate::node::register;
use crate::protocol::message::{IpNetwork, RksMessage, Route};
use crate::text;
use crate::text::{chars_of, concat2, lines, parse_unsigned, split_once, str_eq, trim};

verus! {

/// Where the subnet file is written when the environment does not tell.
pub fn default_subnet_file() -> (r: String)
    ensures
        r@ == "/etc/cni/net.d/subnet.env"@,
{
    "/etc/cni/net.d/subnet.env".to_owned()
}

/// What the local node says of itself when it leases a subnet: the external address of its
/// interface, or the interface's own.
pub open spec fn attrs_of(
    iface: ExternalInterface,
    backend_type: Seq<char>,
    node_id: Seq<char>,
) -> LeaseAttrsView {
    LeaseAttrsView {
        public_ip: match (iface.ext_addr, iface.iface_addr) {
            (Some(a), _) => a,
            (None, Some(a)) => a,
            (None, None) => Ipv4Addr { bits: 0 },
        },
        public_ipv6: if iface.ext_v6_addr is Some {
            iface.ext_v6_addr
        } else {
            iface.iface_v6_addr
        },
        backend_type,
        node_id,
    }
}

/// What the local node says of itself when it leases a subnet.
pub fn local_lease_attrs(iface: &ExternalInterface, backend_type: String, node_id: String) -> (r:
    LeaseAttrs)
    ensures
        r.deep_view() == attrs_of(*iface, backend_type@, node_id@),
{
    let public_ip: Ipv4Addr = match (iface.ext_addr, iface.iface_addr) {
        (Some(a), _) => a,
        (None, Some(a)) => a,
        (None, None) => Ipv4Addr { bits: 0 },
    };
    let public_ipv6 = if iface.ext_v6_addr.is_some() {
        iface.ext_v6_addr
    } else {
        iface.iface_v6_addr
    };
    LeaseAttrs { public_ip, public_ipv6, backend_type, node_id }
}

/// What the local node does about a message.
#[derive(Debug)]
pub enum LocalStep {
    /// Apply the network settings.
    ApplySubnet(String),
    /// Bring the routes in line.
    ApplyRoutes(Vec<Route>),
    Ignore,
}

/// What the local node does about a message. Messages for other nodes are ignored.
pub open spec fn handles(node_id: Seq<char>, msg: RksMessage) -> LocalStep {
    match msg {
        RksMessage::SetNetwork(c) => if c.node_id@ == node_id {
            LocalStep::ApplySubnet(c.subnet_env)
        } else {
            LocalStep::Ignore
        },
        RksMessage::UpdateRoutes(target, routes) => if target@ == node_id {
            LocalStep::ApplyRoutes(routes)
        } else {
            LocalStep::Ignore
        },
        _ => LocalStep::Ignore,
    }
}

/// What the local node does about a message.
pub fn local_step(node_id: &str, msg: RksMessage) -> (r: LocalStep)
    ensures
        r == handles(node_id@, msg),
{
    match msg {
        RksMessage::SetNetwork(c) => {
            if str_eq(c.node_id.as_str(), node_id) {
                LocalStep::ApplySubnet(c.subnet_env)
            } else {
                LocalStep::Ignore
            }
        },
        RksMessage::UpdateRoutes(target, routes) => {
            if str_eq(target.as_str(), node_id) {
                LocalStep::ApplyRoutes(routes)
            } else {
                LocalStep::Ignore
            }
        },
        _ => LocalStep::Ignore,
    }
}

/// The network settings that were read.
#[derive(Debug, Clone, Copy, PartialEq, Eq, Structural)]
pub struct SubnetEnv {
    pub subnet: Ipv4Network,
    pub ip_masq: bool,
    pub mtu: u32,
}

/// The settings so far.
pub struct EnvView {
    pub subnet: Option<Ipv4Network>,
    pub ip_masq: bool,
    pub mtu: u32,
    /// The value of a subnet that is none.
    pub fault: Option<Seq<char>>,
}

pub open spec fn no_settings() -> EnvView {
    EnvView { subnet: None, ip_masq: true, mtu: 1500, fault: None }
}

/// The settings after one more line.
pub open spec fn with_line(e: EnvView, line: Seq<char>) -> EnvView {
    if e.fault is Some {
        e
    } else {
        match text::split_first(line, '=') {
            None => e,
            Some(p) => if p.0 == "RKL_SUBNET"@ {
                match address::network4(p.1) {
                    Some(n) => EnvView { subnet: Some(n), ..e },
                    None => EnvView { fault: Some(p.1), ..e },
                }
            } else if p.0 == "RKL_MTU"@ {
                EnvView {
                    mtu: match text::unsigned_of(p.1, u32::MAX as int) {
                        Some(n) => n as u32,
                        None => 1500,
                    },
                    ..e
                }
            } else if p.0 == "RKL_IPMASQ"@ {
                EnvView { ip_masq: p.1 != "false"@, ..e }
            } else {
                e
            },
        }
    }
}

/// The settings of the first `n` lines.
pub open spec fn settings(l: Seq<Seq<char>>, n: int) -> EnvView
    decreases n,
{
    if n <= 0 {
        no_settings()
    } else {
        with_line(settings(l, n - 1), l[n - 1])
    }
}

/// Whether a result is the one that settings stand for.
pub open spec fn is_outcome(r: Result<SubnetEnv, String>, e: EnvView) -> bool {
    match e.fault {
        Some(v) => r matches Err(m) && m@ == "invalid RKL_SUBNET value in local config: "@ + v,
        None => match e.subnet {
            None => r matches Err(m) && m@ == "missing RKL_SUBNET in local network config payload"@,
            Some(n) => r == Ok::<SubnetEnv, String>(
                SubnetEnv { subnet: n, ip_masq: e.ip_masq, mtu: e.mtu },
            ),
        },
    }
}

/// Whether networks that are written are read back, in a line that gives a subnet.
pub open spec fn reads_back(line: Seq<char>) -> bool {
    text::split_first(line, '=') matches Some(p) ==> p.0 == "RKL_SUBNET"@ ==> forall|n: Ipv4Network|
        n.wf() && p.1 == #[trigger] address::ipv4_network_text(n) ==> address::network4(p.1) == Some(
            n,
        )
}

/// Reads lines of settings, up to the first fault: the result and the number of lines read.
fn read_settings(all: &Vec<String>) -> (r: (Result<SubnetEnv, String>, usize))
    ensures
        is_outcome(r.0, settings(text::texts(all@), all@.len() as int)),
        r.1 <= all@.len(),
        forall|k: int| 0 <= k < r.1 ==> reads_back(#[trigger] text::texts(all@)[k]),
        r.1 < all@.len() ==> settings(text::texts(all@), r.1 as int).fault is Some,
{
    let ghost l = text::texts(all@);
    let mut subnet: Option<Ipv4Network> = None;
    let mut ip_masq = true;
    let mut mtu: u32 = 1500;
    for i in 0..all.len()
        invariant
            l == text::texts(all@),
            settings(l, i as int) == (EnvView { subnet, ip_masq, mtu, fault: None }),
            forall|k: int| 0 <= k < i ==> reads_back(#[trigger] l[k]),
    {
        assert(l[i as int] == all@[i as int]@);
        match split_once(all[i].as_str(), '=') {
            None => {
                assert(reads_back(l[i as int]));
            },
            Some((key, value)) => {
                if str_eq(key.as_str(), "RKL_SUBNET") {
                    match Ipv4Network::parse(value.as_str()) {
                        Some(n) => {
                            subnet = Some(n);
                            assert(reads_back(l[i as int]));
                        },
                        None => {
                            proof {
                                assert(reads_back(l[i as int]));
                                assert(settings(l, i + 1).fault == Some(value@));
                                lemma_fault_stays(l, i + 1, l.len() as int);
                            }
                            return (
                                Err(
                                    concat2(
                                        "invalid RKL_SUBNET value in local config: ",
                                        value.as_str(),
                                    ),
                                ),
                                i + 1,
                            );
                        },
                    }
                } else {
                    assert(reads_back(l[i as int]));
                    if str_eq(key.as_str(), "RKL_MTU") {
                        mtu =
                        match parse_unsigned(value.as_str(), 0xffff_ffff) {
                            Some(n) => n as u32,
                            None => 1500,
                        };
                    } else if str_eq(key.as_str(), "RKL_IPMASQ") {
                        ip_masq = !str_eq(value.as_str(), "false");
                    }
                }
            },
        }
    }
    let n: usize = all.len();
    match subnet {
        Some(s) => (Ok(SubnetEnv { subnet: s, ip_masq, mtu }), n),
        None => (Err("missing RKL_SUBNET in local network config payload".to_owned()), n),
    }
}

/// Reads network settings: lines that give names values. The last value of a name counts. The
/// settings that a registered node is sent give the subnet and the flag that they were made
/// from.
pub fn parse_subnet_env(subnet_env: &str) -> (r: Result<SubnetEnv, String>)
    ensures
        is_outcome(
            r,
            settings(text::lines_of(subnet_env@), text::lines_of(subnet_env@).len() as int),
        ),
        forall|c: Config, ip_masq: bool, sn: Ipv4Network, sn6: Option<Ipv6Network>|
            c.enable_ipv4 && sn.wf() && text::lines_of(subnet_env@) == #[trigger]
            register::env_lines(c, ip_masq, Some(sn), sn6) ==> r == Ok::<SubnetEnv, String>(
                SubnetEnv { subnet: sn, ip_masq, mtu: 1500 },
            ),
{
    let all = lines(subnet_env);
    let ghost l = text::lines_of(subnet_env@);
    assert(text::texts(all@).len() == all@.len());
    let (r, n) = read_settings(&all);
    proof {
        assert forall|c: Config, m: bool, sn: Ipv4Network, sn6: Option<Ipv6Network>|
            c.enable_ipv4 && sn.wf() && l == #[trigger] register::env_lines(
                c,
                m,
                Some(sn),
                sn6,
            ) implies r == Ok::<SubnetEnv, String>(
            SubnetEnv { subnet: sn, ip_masq: m, mtu: 1500 },
        ) by {
            lemma_first_setting(c, sn, sn6, m);
            assert(n != 0 && n != 1);
            assert(reads_back(l[1]));
            lemma_settings_read_back(c, sn, sn6, m);
        }
    }
    r
}

/// The first of the lines that a registered node is sent sets nothing.
proof fn lemma_first_setting(c: Config, sn: Ipv4Network, sn6: Option<Ipv6Network>, ip_masq: bool)
    requires
        c.enable_ipv4,
    ensures
        settings(register::env_lines(c, ip_masq, Some(sn), sn6), 0) == no_settings(),
        settings(register::env_lines(c, ip_masq, Some(sn), sn6), 1) == no_settings(),
{
    reveal_strlit("RKL_NETWORK");
    reveal_strlit("RKL_SUBNET");
    reveal_strlit("RKL_MTU");
    reveal_strlit("RKL_IPMASQ");
    let value = address::ipv4_network_text(c.network->0);
    lemma_key_and_value("RKL_NETWORK"@, value);
    assert(register::env_lines(c, ip_masq, Some(sn), sn6)[0] == register::setting(
        "RKL_NETWORK"@,
        value,
    ));
    reveal_with_fuel(settings, 2);
}

proof fn lemma_fault_stays(l: Seq<Seq<char>>, n: int, m: int)
    requires
        0 <= n <= m <= l.len(),
        settings(l, n).fault is Some,
    ensures
        settings(l, m) == settings(l, n),
    decreases m - n,
{
    if n < m {
        lemma_fault_stays(l, n, m - 1);
    }
}

proof fn lemma_key_and_value(k: Seq<char>, v: Seq<char>)
    requires
        !k.contains('='),
    ensures
        text::split_first(k + "="@ + v, '=') == Some((k, v)),
{
    reveal_strlit("=");
    let s = k + "="@ + v;
    text::lemma_index_from(s, '=', 0);
    let i = text::index_from(s, '=', 0);
    assert(s[k.len() as int] == '=');
    if i < k.len() {
        assert(s[i] == k[i]);
        assert(k.contains('='));
    }
    assert(s.take(i) =~= k);
    assert(s.skip(i + 1) =~= v);
}

/// A setting of another name leaves the settings as they are.
proof fn lemma_other_setting(e: EnvView, key: Seq<char>, value: Seq<char>)
    requires
        !key.contains('='),
        key != "RKL_SUBNET"@,
        key != "RKL_MTU"@,
        key != "RKL_IPMASQ"@,
    ensures
        with_line(e, register::setting(key, value)) == e,
{
    lemma_key_and_value(key, value);
}

/// The setting of the subnet sets it.
proof fn lemma_subnet_setting(sn: Ipv4Network)
    requires
        sn.wf(),
        reads_back(register::setting("RKL_SUBNET"@, address::ipv4_network_text(sn))),
    ensures
        with_line(
            no_settings(),
            register::setting("RKL_SUBNET"@, address::ipv4_network_text(sn)),
        ) == (EnvView { subnet: Some(sn), ..no_settings() }),
{
    reveal_strlit("RKL_SUBNET");
    lemma_key_and_value("RKL_SUBNET"@, address::ipv4_network_text(sn));
}

/// The setting of masquerading sets it.
proof fn lemma_masquerade_setting(e: EnvView, ip_masq: bool)
    requires
        e.fault is None,
    ensures
        with_line(e, register::setting("RKL_IPMASQ"@, register::bool_text(ip_masq))) == (EnvView {
            ip_masq,
            ..e
        }),
{
    reveal_strlit("RKL_SUBNET");
    reveal_strlit("RKL_MTU");
    reveal_strlit("RKL_IPMASQ");
    reveal_strlit("true");
    reveal_strlit("false");
    assert("RKL_SUBNET"@[4] == 'S');
    assert("RKL_IPMASQ"@[4] == 'I');
    lemma_key_and_value("RKL_IPMASQ"@, register::bool_text(ip_masq));
}

/// The settings of the other address family leave the settings as they are.
proof fn lemma_ipv6_settings(e: EnvView, a: Seq<char>, b: Seq<char>)
    ensures
        with_line(e, register::setting("RKL_IPV6_NETWORK"@, a)) == e,
        with_line(e, register::setting("RKL_IPV6_SUBNET"@, b)) == e,
{
    reveal_strlit("RKL_SUBNET");
    reveal_strlit("RKL_MTU");
    reveal_strlit("RKL_IPMASQ");
    reveal_strlit("RKL_IPV6_NETWORK");
    reveal_strlit("RKL_IPV6_SUBNET");
    lemma_other_setting(e, "RKL_IPV6_NETWORK"@, a);
    lemma_other_setting(e, "RKL_IPV6_SUBNET"@, b);
}

/// The settings that the lines give that a registered node is sent.
proof fn lemma_settings_read_back(
    c: Config,
    sn: Ipv4Network,
    sn6: Option<Ipv6Network>,
    ip_masq: bool,
)
    requires
        sn.wf(),
        c.enable_ipv4,
        reads_back(register::env_lines(c, ip_masq, Some(sn), sn6)[1]),
    ensures
        ({
            let l = register::env_lines(c, ip_masq, Some(sn), sn6);
            settings(l, l.len() as int) == (EnvView {
                subnet: Some(sn),
                ip_masq,
                mtu: 1500,
                fault: None,
            })
        }),
{
    let l = register::env_lines(c, ip_masq, Some(sn), sn6);
    let n = l.len() as int;
    let found = EnvView { subnet: Some(sn), ..no_settings() };
    lemma_first_setting(c, sn, sn6, ip_masq);
    assert(l[1] == register::setting("RKL_SUBNET"@, address::ipv4_network_text(sn)));
    lemma_subnet_setting(sn);
    assert(settings(l, 2) == found);
    if c.enable_ipv6 && sn6 is Some {
        let a = address::ipv6_network_text(c.ipv6_network->0);
        let b = address::ipv6_network_text(sn6->0);
        lemma_ipv6_settings(found, a, b);
        assert(l[2] == register::setting("RKL_IPV6_NETWORK"@, a));
        assert(settings(l, 3) == found);
        assert(l[3] == register::setting("RKL_IPV6_SUBNET"@, b));
        assert(settings(l, 4) == found);
        assert(n == 5);
    } else {
        assert(n == 3);
    }
    assert(l[n - 1] == register::setting("RKL_IPMASQ"@, register::bool_text(ip_masq)));
    lemma_masquerade_setting(found, ip_masq);
}

/// The plan that brings the routes in line.
#[derive(Debug)]
pub struct RoutePlan {
    /// Routes to remove.
    pub remove: Vec<Route>,
    /// Routes to add, after the removals.
    pub desired: Vec<Route>,
}

pub open spec fn leads_v4(r: Route) -> bool {
    r.dst matches Some(d) && d is V4
}

/// The IPv4 routes among the first `n`, each once.
pub open spec fn distinct_v4(routes: Seq<Route>, n: int) -> Seq<Route>
    decreases n,
{
    if n <= 0 {
        Seq::empty()
    } else {
        let before = distinct_v4(routes, n - 1);
        if leads_v4(routes[n - 1]) && !before.contains(routes[n - 1]) {
            before.push(routes[n - 1])
        } else {
            before
        }
    }
}

pub open spec fn not_among(s: Seq<Route>) -> spec_fn(Route) -> bool {
    |r: Route| !s.contains(r)
}

fn same_network(a: Option<IpNetwork>, b: Option<IpNetwork>) -> (r: bool)
    ensures
        r == (a == b),
{
    match (a, b) {
        (Some(x), Some(y)) => x == y,
        (None, None) => true,
        _ => false,
    }
}

fn same_route(a: &Route, b: &Route) -> (r: bool)
    ensures
        r == (*a == *b),
{
    let g = match (a.gateway, b.gateway) {
        (Some(x), Some(y)) => x == y,
        (None, None) => true,
        _ => false,
    };
    let o = match (a.oif_index, b.oif_index) {
        (Some(x), Some(y)) => x == y,
        (None, None) => true,
        _ => false,
    };
    g && o && same_network(a.dst, b.dst)
}

fn contains_route(routes: &Vec<Route>, route: &Route) -> (r: bool)
    ensures
        r == routes@.contains(*route),
{
    for i in 0..routes.len()
        invariant
            forall|k: int| 0 <= k < i ==> #[trigger] routes@[k] != *route,
    {
        if same_route(&routes[i], route) {
            assert(routes@[i as int] == *route);
            return true;
        }
    }
    false
}

/// Brings the IPv4 routes in line with the wanted ones: stale routes are removed, the wanted
/// ones are added, each once. Routes of IPv6 and routes without a destination are passed over.
pub fn apply_routes(routes: &Vec<Route>, current: &Vec<Route>) -> (plan: RoutePlan)
    ensures
        plan.desired@ == distinct_v4(routes@, routes@.len() as int),
        plan.remove@ == current@.filter(not_among(plan.desired@)),
{
    let mut desired: Vec<Route> = Vec::new();
    for i in 0..routes.len()
        invariant
            desired@ == distinct_v4(routes@, i as int),
    {
        let r: Route = routes[i];
        let v4 = match r.dst {
            Some(IpNetwork::V4(_)) => true,
            _ => false,
        };
        if v4 && !contains_route(&desired, &r) {
            desired.push(r);
        }
    }
    let mut remove: Vec<Route> = Vec::new();
    proof {
        crate::seqs::lemma_filter_none(current@, not_among(desired@));
    }
    for i in 0..current.len()
        invariant
            remove@ == current@.take(i as int).filter(not_among(desired@)),
    {
        proof {
            crate::seqs::lemma_filter_take(current@, not_among(desired@), i as int);
        }
        if !contains_route(&desired, &current[i]) {
            remove.push(current[i]);
        }
    }
    assert(current@.take(current@.len() as int) =~= current@);
    RoutePlan { remove, desired }
}

/// After the plan was carried out, exactly the wanted IPv4 routes are there.
pub proof fn law_routes_are_brought_in_line(routes: Seq<Route>, current: Seq<Route>, r: Route)
    ensures
        ({
            let desired = distinct_v4(routes, routes.len() as int);
            let removed = current.filter(not_among(desired));
            let left = current.contains(r) && !removed.contains(r);
            (left || desired.contains(r)) <==> (routes.contains(r) && leads_v4(r))
        }),
{
    let n = routes.len() as int;
    lemma_distinct_members(routes, n, r);
    let desired = distinct_v4(routes, n);
    crate::seqs::lemma_filter_members(current, not_among(desired));
    assert(routes.take(n) =~= routes);
    if current.contains(r) && !desired.contains(r) {
        assert(not_among(desired)(r));
    }
}

proof fn lemma_distinct_members(routes: Seq<Route>, n: int, r: Route)
    requires
        0 <= n <= routes.len(),
    ensures
        distinct_v4(routes, n).contains(r) <==> routes.take(n).contains(r) && leads_v4(r),
    decreases n,
{
    if n > 0 {
        lemma_distinct_members(routes, n - 1, r);
        let x = routes[n - 1];
        let before = distinct_v4(routes, n - 1);
        assert(routes.take(n) =~= routes.take(n - 1).push(x));
        assert(routes.take(n).contains(r) <==> routes.take(n - 1).contains(r) || x == r) by {
            if routes.take(n - 1).contains(r) {
                let t = routes.take(n - 1);
                let k = choose|k: int| 0 <= k < t.len() && t[k] == r;
                assert(routes.take(n)[k] == r);
            }
            if x == r {
                assert(routes.take(n)[n - 1] == r);
            }
        }
        assert(before.push(x).contains(r) <==> before.contains(r) || x == r) by {
            if before.contains(r) {
                let k = choose|k: int| 0 <= k < before.len() && before[k] == r;
                assert(before.push(x)[k] == r);
            }
            if x == r {
                assert(before.push(x)[before.len() as int] == r);
            }
        }
    } else {
        assert(routes.take(0) =~= Seq::<Route>::empty());
    }
}

/// The character, or a dash when it is neither a letter nor a digit.
pub open spec fn sanitized_char(c: char) -> char {
    if 'a' <= c <= 'z' || 'A' <= c <= 'Z' || '0' <= c <= '9' {
        c
    } else {
        '-'
    }
}

/// The text with dashes for all but letters and digits, without dashes at its ends; "node"
/// when nothing is left.
pub open spec fn sanitized(raw: Seq<char>) -> Seq<char> {
    let s = raw.map_values(|c: char| sanitized_char(c));
    let t = text::drop_trailing(text::drop_leading(s, text::only('-')), text::only('-'));
    if t.len() == 0 {
        "node"@
    } else {
        t
    }
}

/// A suffix for a node's name.
pub fn sanitize_node_suffix(raw: &str) -> (r: String)
    ensures
        r@ == sanitized(raw@),
{
    let v = chars_of(raw);
    let ghost s = raw@.map_values(|c: char| sanitized_char(c));
    let mut out = String::new();
    assert(out@ =~= s.take(0));
    for i in 0..v.len()
        invariant
            v@ == raw@,
            s == raw@.map_values(|c: char| sanitized_char(c)),
            out@ == s.take(i as int),
    {
        let c: char = v[i];
        if ('a' <= c && c <= 'z') || ('A' <= c && c <= 'Z') || ('0' <= c && c <= '9') {
            out.push(c);
        } else {
            out.push('-');
        }
        assert(out@ =~= s.take(i + 1));
    }
    assert(s.take(s.len() as int) =~= s);
    let t = text::trim_start_char(out.as_str(), '-');
    let t = text::trim_end_char(t.as_str(), '-');
    if t.as_str().is_empty() {
        "node".to_owned()
    } else {
        t
    }
}

/// The name of the local node: the configured one, or one made of the host's name, or one made
/// of the address. Names of nothing but white space do not count.
pub fn resolve_local_node_id(
    node_name: Option<String>,
    hostname: Option<String>,
    addr: &str,
) -> (r: String)
    ensures
        r@ == if node_name matches Some(n) && text::trimmed(n@).len() > 0 {
            node_name->0@
        } else if hostname matches Some(h) && text::trimmed(h@).len() > 0 {
            "rks-"@ + hostname->0@
        } else {
            "rks-"@ + sanitized(addr@)
        },
{
    if let Some(n) = &node_name {
        if !trim(n.as_str()).as_str().is_empty() {
            return n.clone();
        }
    }
    if let Some(h) = &hostname {
        if !trim(h.as_str()).as_str().is_empty() {
            return concat2("rks-", h.as_str());
        }
    }
    concat2("rks-", sanitize_node_suffix(addr).as_str())
}

/// The node's own address goes before the interface's where both are known, in each family.
pub proof fn law_lease_holds_the_outer_address(
    iface: ExternalInterface,
    backend: String,
    id: String,
    r: LeaseAttrs,
)
    requires
        call_ensures(local_lease_attrs, (&iface, backend, id), r),
    ensures
        iface.ext_addr matches Some(a) ==> r.deep_view().public_ip == a,
        iface.ext_addr is None && iface.iface_addr is Some ==> r.deep_view().public_ip
            == iface.iface_addr->0,
        iface.ext_v6_addr is Some ==> r.deep_view().public_ipv6 == iface.ext_v6_addr,
        iface.ext_v6_addr is None ==> r.deep_view().public_ipv6 == iface.iface_v6_addr,
        r.deep_view().backend_type == backend@,
        r.deep_view().node_id == id@,
{
}

/// Only messages for the node are followed, each as it says.
pub proof fn law_only_own_messages_are_followed(id: &str, msg: RksMessage, r: LocalStep)
    requires
        call_ensures(local_step, (id, msg), r),
    ensures
        r matches LocalStep::ApplySubnet(env) <==> (msg matches RksMessage::SetNetwork(c) && c.node_id@
            == id@),
        r matches LocalStep::ApplySubnet(env) ==> msg->SetNetwork_0.subnet_env == env,
        r is ApplyRoutes <==> (msg matches RksMessage::UpdateRoutes(t, v) && t@ == id@),
        r matches LocalStep::ApplyRoutes(v) ==> msg->UpdateRoutes_1 == v,
{
}

/// After routes are applied, the routes in use are those that were given for the shorter
/// addresses: these are all wanted, once each, and all others in use are removed.
pub proof fn law_given_routes_are_in_use(
    routes: Vec<Route>,
    current: Vec<Route>,
    plan: RoutePlan,
    r: Route,
)
    requires
        call_ensures(apply_routes, (&routes, &current), plan),
    ensures
        plan.desired@.contains(r) <==> routes@.contains(r) && (r.dst matches Some(d) && d is V4),
        plan.remove@.contains(r) <==> current@.contains(r) && !plan.desired@.contains(r),
{
    let n = routes@.len() as int;
    lemma_distinct_members(routes@, n, r);
    assert(routes@.take(n) =~= routes@);
    crate::seqs::lemma_filter_members(current@, not_among(plan.desired@));
    assert(not_among(plan.desired@)(r) <==> !plan.desired@.contains(r));
}

/// A node is called by the name that is set, or after its host, or after its address, in this
/// order; an empty name counts as none.
pub proof fn law_node_is_called_by_the_first_name(
    name: Option<String>,
    host: Option<String>,
    addr: &str,
    r: String,
)
    requires
        call_ensures(resolve_local_node_id, (name, host, addr), r),
    ensures
        (name matches Some(n) && text::trimmed(n@).len() > 0) ==> r@ == name->0@,
        name is None && (host matches Some(h) && text::trimmed(h@).len() > 0) ==> r@ == "rks-"@
            + host->0@,
        (name matches Some(n) && text::trimmed(n@).len() == 0) && (host matches Some(h)
            && text::trimmed(h@).len() > 0) ==> r@ == "rks-"@ + host->0@,
        name is None && host is None ==> "rks-"@.is_prefix_of(r@),
{
    if name is None && host is None {
        assert(r@.subrange(0, "rks-"@.len() as int) =~= "rks-"@);
    }
}

} // verus!

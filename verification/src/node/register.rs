//! What a worker is told when it registers.
use vstd::prelude::*;
use crate::network::address;
use crate::network::address::{Ipv4Addr, Ipv4Network, Ipv6Addr, Ipv6Network};
use crate::network::config::Config;
use crate::network::lease::{LeaseAttrs, LeaseAttrsView};
use crate::protocol::message;
use crate::protocol::message::{IpAddr, NodeNetworkConfig, RksMessage};
use crate::protocol::node::{Node, NodeSpec};
use crate::text;
use crate::vault::RegistryCredential;

verus! {

/// A line that gives a name a value.
pub open spec fn env_line(key: Seq<char>, value: Seq<char>) -> Seq<char> {
    key + "="@ + value + "\n"@
}

pub open spec fn bool_text(b: bool) -> Seq<char> {
    if b {
        "true"@
    } else {
        "false"@
    }
}

/// A setting: a name and its value.
pub open spec fn setting(key: Seq<char>, value: Seq<char>) -> Seq<char> {
    key + "="@ + value
}

/// The network settings of a node, one a line.
pub open spec fn env_lines(
    config: Config,
    ip_masq: bool,
    sn4: Option<Ipv4Network>,
    sn6: Option<Ipv6Network>,
) -> Seq<Seq<char>> {
    let part4 = if config.enable_ipv4 && sn4 is Some {
        seq![
            setting("RKL_NETWORK"@, address::ipv4_network_text(config.network->0)),
            setting("RKL_SUBNET"@, address::ipv4_network_text(sn4->0)),
        ]
    } else {
        Seq::empty()
    };
    let part6 = if config.enable_ipv6 && sn6 is Some {
        seq![
            setting("RKL_IPV6_NETWORK"@, address::ipv6_network_text(config.ipv6_network->0)),
            setting("RKL_IPV6_SUBNET"@, address::ipv6_network_text(sn6->0)),
        ]
    } else {
        Seq::empty()
    };
    part4 + part6 + seq![setting("RKL_IPMASQ"@, bool_text(ip_masq))]
}

/// The network settings of a node, or why there are none.
pub open spec fn env_text(
    config: Config,
    ip_masq: bool,
    sn4: Option<Ipv4Network>,
    sn6: Option<Ipv6Network>,
) -> Result<Seq<char>, Seq<char>> {
    if config.enable_ipv4 && sn4 is Some && config.network is None {
        Err("IPv4 network config missing"@)
    } else if config.enable_ipv6 && sn6 is Some && config.ipv6_network is None {
        Err("IPv6 network config missing"@)
    } else {
        let part4 = if config.enable_ipv4 && sn4 is Some {
            env_line("RKL_NETWORK"@, address::ipv4_network_text(config.network->0)) + env_line(
                "RKL_SUBNET"@,
                address::ipv4_network_text(sn4->0),
            )
        } else {
            Seq::empty()
        };
        let part6 = if config.enable_ipv6 && sn6 is Some {
            env_line("RKL_IPV6_NETWORK"@, address::ipv6_network_text(config.ipv6_network->0))
                + env_line("RKL_IPV6_SUBNET"@, address::ipv6_network_text(sn6->0))
        } else {
            Seq::empty()
        };
        Ok(part4 + part6 + env_line("RKL_IPMASQ"@, bool_text(ip_masq)))
    }
}

/// Whether a text is on one line, and no carriage return is at its end.
pub open spec fn on_one_line(s: Seq<char>) -> bool {
    s.len() > 0 && !s.contains('\n') && s.last() != '\r'
}

/// Whether a text is made of lines, each with a line feed at its end.
#[verifier::opaque]
pub open spec fn made_of(s: Seq<char>, lines: Seq<Seq<char>>) -> bool {
    forall|rest: Seq<char>| #[trigger] text::lines_of(s + rest) == lines + text::lines_of(rest)
}

fn push_line(out: &mut String, key: &str, value: &str, Ghost(lines): Ghost<Seq<Seq<char>>>)
    requires
        on_one_line(value@),
        !key@.contains('\n'),
        made_of(old(out)@, lines),
    ensures
        final(out)@ == old(out)@ + env_line(key@, value@),
        made_of(final(out)@, lines.push(setting(key@, value@))),
{
    let ghost before = out@;
    out.append(key);
    out.append("=");
    out.append(value);
    out.append("\n");
    assert(out@ =~= before + env_line(key@, value@));
    proof {
        lemma_one_more_line(before, lines, key@, value@);
    }
}

proof fn lemma_one_more_line(s: Seq<char>, lines: Seq<Seq<char>>, key: Seq<char>, value: Seq<char>)
    requires
        on_one_line(value),
        !key.contains('\n'),
        made_of(s, lines),
    ensures
        made_of(s + env_line(key, value), lines.push(setting(key, value))),
{
    let a = setting(key, value);
    reveal(made_of);
    reveal_strlit("=");
    assert forall|i: int| 0 <= i < a.len() implies a[i] != '\n' by {
        if i < key.len() {
            assert(key.contains(key[i]));
            assert(a[i] == key[i]);
        } else if i > key.len() {
            assert(a[i] == value[i - key.len() - 1]);
            assert(value.contains(value[i - key.len() - 1]));
        }
    }
    assert(a.last() == value.last());
    assert forall|rest: Seq<char>| #[trigger]
        text::lines_of(s + env_line(key, value) + rest) == lines.push(a) + text::lines_of(rest) by {
        let tail = a + "\n"@ + rest;
        assert(s + env_line(key, value) + rest =~= s + tail);
        assert(text::lines_of(s + tail) == lines + text::lines_of(tail));
        lemma_first_line(a, rest);
        assert(lines + (seq![a] + text::lines_of(rest)) =~= lines.push(a) + text::lines_of(rest));
    }
}

/// An empty text is made of no lines.
proof fn lemma_no_lines(s: Seq<char>)
    requires
        s.len() == 0,
    ensures
        made_of(s, Seq::empty()),
{
    reveal(made_of);
    let lines = Seq::<Seq<char>>::empty();
    assert forall|rest: Seq<char>| #[trigger]
        text::lines_of(s + rest) == lines + text::lines_of(rest) by {
        assert(s + rest =~= rest);
        assert(lines + text::lines_of(rest) =~= text::lines_of(rest));
    }
}

/// The lines of a text are those that it is made of.
proof fn lemma_lines_of(s: Seq<char>, lines: Seq<Seq<char>>)
    requires
        made_of(s, lines),
    ensures
        text::lines_of(s) == lines,
{
    reveal(made_of);
    let none = Seq::<char>::empty();
    assert(s + none =~= s);
    assert(text::lines_of(none) =~= Seq::<Seq<char>>::empty());
    assert(text::lines_of(s + none) =~= lines);
}

/// The names of settings, and the values of flags, are on one line.
proof fn lemma_names()
    ensures
        !"RKL_NETWORK"@.contains('\n'),
        !"RKL_SUBNET"@.contains('\n'),
        !"RKL_IPV6_NETWORK"@.contains('\n'),
        !"RKL_IPV6_SUBNET"@.contains('\n'),
        !"RKL_IPMASQ"@.contains('\n'),
        on_one_line("true"@),
        on_one_line("false"@),
{
    reveal_strlit("RKL_NETWORK");
    reveal_strlit("RKL_SUBNET");
    reveal_strlit("RKL_IPV6_NETWORK");
    reveal_strlit("RKL_IPV6_SUBNET");
    reveal_strlit("RKL_IPMASQ");
    reveal_strlit("true");
    reveal_strlit("false");
}

/// A line of a text whose first line is known.
proof fn lemma_first_line(a: Seq<char>, rest: Seq<char>)
    requires
        on_one_line(a),
    ensures
        text::lines_of(a + "\n"@ + rest) == seq![a] + text::lines_of(rest),
{
    reveal_strlit("\n");
    let s = a + "\n"@ + rest;
    text::lemma_index_from(s, '\n', 0);
    let i = text::index_from(s, '\n', 0);
    assert(s[a.len() as int] == '\n');
    if i < a.len() {
        assert(s[i] == a[i]);
        assert(a.contains('\n'));
    }
    assert(i == a.len());
    assert(s.take(i) =~= a);
    assert(s.skip(i + 1) =~= rest);
}

/// The text of a network is on one line.
proof fn lemma_network_text(n: Ipv4Network)
    ensures
        on_one_line(address::ipv4_network_text(n)),
{
    address::lemma_network_characters(n);
    let t = address::ipv4_network_text(n);
    assert(address::network_character(t[t.len() - 1]));
}

/// Build node network configuration environment variables.
pub fn build_node_network_config(
    node_id: String,
    config: &Config,
    ip_masq: bool,
    sn4: Option<Ipv4Network>,
    sn6: Option<Ipv6Network>,
) -> (r: Result<NodeNetworkConfig, String>)
    ensures
        match (r, env_text(*config, ip_masq, sn4, sn6)) {
            (Ok(c), Ok(t)) => c.node_id == node_id && c.subnet_env@ == t,
            (Err(m), Err(t)) => m@ == t,
            _ => false,
        },
        r matches Ok(c) ==> text::lines_of(c.subnet_env@) == env_lines(
            *config,
            ip_masq,
            sn4,
            sn6,
        ),
{
    let mut contents = String::new();
    let ghost mut lines: Seq<Seq<char>> = Seq::empty();
    proof {
        lemma_names();
        lemma_no_lines(contents@);
        assert(contents@ =~= Seq::<char>::empty());
    }
    let ghost mut part4: Seq<char> = Seq::empty();
    if config.enable_ipv4 {
        if let Some(net) = sn4 {
            match config.network {
                Some(n) => {
                    proof {
                        lemma_network_text(n);
                        lemma_network_text(net);
                    }
                    push_line(&mut contents, "RKL_NETWORK", n.to_text().as_str(), Ghost(lines));
                    proof {
                        lines = lines.push(
                            setting("RKL_NETWORK"@, address::ipv4_network_text(n)),
                        );
                    }
                    push_line(&mut contents, "RKL_SUBNET", net.to_text().as_str(), Ghost(lines));
                    proof {
                        lines = lines.push(
                            setting("RKL_SUBNET"@, address::ipv4_network_text(net)),
                        );
                        part4 =
                        env_line("RKL_NETWORK"@, address::ipv4_network_text(n)) + env_line(
                            "RKL_SUBNET"@,
                            address::ipv4_network_text(net),
                        );
                    }
                },
                None => {
                    return Err("IPv4 network config missing".to_owned());
                },
            }
        }
    }
    assert(contents@ =~= part4);
    let ghost mut part6: Seq<char> = Seq::empty();
    if config.enable_ipv6 {
        if let Some(net) = sn6 {
            match config.ipv6_network {
                Some(n) => {
                    let text6 = n.to_text();
                    push_line(&mut contents, "RKL_IPV6_NETWORK", text6.as_str(), Ghost(lines));
                    proof {
                        lines = lines.push(
                            setting("RKL_IPV6_NETWORK"@, address::ipv6_network_text(n)),
                        );
                    }
                    let text6 = net.to_text();
                    push_line(&mut contents, "RKL_IPV6_SUBNET", text6.as_str(), Ghost(lines));
                    proof {
                        lines = lines.push(
                            setting("RKL_IPV6_SUBNET"@, address::ipv6_network_text(net)),
                        );
                        part6 =
                        env_line("RKL_IPV6_NETWORK"@, address::ipv6_network_text(n)) + env_line(
                            "RKL_IPV6_SUBNET"@,
                            address::ipv6_network_text(net),
                        );
                    }
                },
                None => {
                    return Err("IPv6 network config missing".to_owned());
                },
            }
        }
    }
    assert(contents@ =~= part4 + part6);
    if ip_masq {
        push_line(&mut contents, "RKL_IPMASQ", "true", Ghost(lines));
    } else {
        push_line(&mut contents, "RKL_IPMASQ", "false", Ghost(lines));
    }
    assert(contents@ =~= part4 + part6 + env_line("RKL_IPMASQ"@, bool_text(ip_masq)));
    proof {
        let all = lines.push(setting("RKL_IPMASQ"@, bool_text(ip_masq)));
        lemma_lines_of(contents@, all);
        assert(all =~= env_lines(*config, ip_masq, sn4, sn6));
    }
    Ok(NodeNetworkConfig { node_id, subnet_env: contents })
}

/// What a worker that connects from an address says of itself when it leases a subnet.
pub fn worker_lease_attrs(node_id: String, remote: IpAddr) -> (r: LeaseAttrs)
    ensures
        r.deep_view() == (LeaseAttrsView {
            public_ip: match remote {
                IpAddr::V4(a) => a,
                IpAddr::V6(_) => Ipv4Addr { bits: 0 },
            },
            public_ipv6: match remote {
                IpAddr::V4(_) => None,
                IpAddr::V6(a) => Some(a),
            },
            backend_type: "hostgw"@,
            node_id: node_id@,
        }),
{
    let (public_ip, public_ipv6): (Ipv4Addr, Option<Ipv6Addr>) = match remote {
        IpAddr::V4(a) => (a, None),
        IpAddr::V6(a) => (Ipv4Addr { bits: 0 }, Some(a)),
    };
    LeaseAttrs { public_ip, public_ipv6, backend_type: "hostgw".to_owned(), node_id }
}

/// The name under which a worker registers, or the reply that it has none.
pub fn worker_id(node: &Node) -> (r: Result<String, RksMessage>)
    ensures
        match r {
            Ok(id) => node.metadata.name@.len() > 0 && id == node.metadata.name,
            Err(m) => node.metadata.name@.len() == 0 && message::reports(
                m,
                "invalid node: metadata.name is empty"@,
            ),
        },
{
    if node.metadata.name.as_str().is_empty() {
        return Err(RksMessage::Error("invalid node: metadata.name is empty".to_owned()));
    }
    Ok(node.metadata.name.clone())
}

/// The node to store: with the subnet that it leased.
pub fn node_to_store(node: Node, subnet: Ipv4Network) -> (r: Node)
    ensures
        r.spec.pod_cidr@ == address::ipv4_network_text(subnet),
        r == (Node { spec: NodeSpec { pod_cidr: r.spec.pod_cidr, ..node.spec }, ..node }),
{
    let mut node = node;
    node.spec.pod_cidr = subnet.to_text();
    node
}

/// The rules that a worker gets at first, in order.
pub open spec fn rules_of(
    full: Option<String>,
    maps: Option<String>,
    discovery: Option<String>,
) -> Seq<RksMessage> {
    match full {
        None => Seq::empty(),
        Some(f) => {
            let first = seq![RksMessage::SetNftablesRules(f)];
            let second = match maps {
                Some(m) => seq![RksMessage::SetNftablesRules(m)],
                None => Seq::empty(),
            };
            let third = match discovery {
                Some(d) => seq![RksMessage::UpdateNftablesRules(d)],
                None => Seq::empty(),
            };
            first + second + third
        },
    }
}

/// The rules that a worker gets at first, in order: the full rules, the verdict maps and the
/// discovery of services. Without the full rules it gets none; what could not be made of the
/// others is left out.
pub fn initial_rules(
    full: Option<String>,
    maps: Option<String>,
    discovery: Option<String>,
) -> (r: Vec<RksMessage>)
    ensures
        r@ == rules_of(full, maps, discovery),
{
    let mut out: Vec<RksMessage> = Vec::new();
    if let Some(f) = full {
        out.push(RksMessage::SetNftablesRules(f));
        if let Some(m) = maps {
            out.push(RksMessage::SetNftablesRules(m));
        }
        if let Some(d) = discovery {
            out.push(RksMessage::UpdateNftablesRules(d));
        }
        assert(out@ =~= seq![RksMessage::SetNftablesRules(f)] + (match maps {
            Some(m) => seq![RksMessage::SetNftablesRules(m)],
            None => Seq::empty(),
        }) + (match discovery {
            Some(d) => seq![RksMessage::UpdateNftablesRules(d)],
            None => Seq::empty(),
        }));
    }
    out
}

/// What reading the credentials of registries came to.
#[derive(Debug)]
pub enum Credentials {
    /// There is no vault.
    NoVault,
    Listed(Vec<RegistryCredential>),
    Unreadable,
}

/// What a worker is told of the credentials of registries: those that are stored, or none where
/// there is no vault, so that it forgets stale ones. It is told nothing when the vault cannot be
/// read, so that it keeps those that it has.
pub fn initial_credentials(read: Credentials) -> (r: Option<RksMessage>)
    ensures
        match (read, r) {
            (Credentials::NoVault, Some(RksMessage::SetRegistryCredentials(v))) => v@.len() == 0,
            (Credentials::Listed(c), Some(RksMessage::SetRegistryCredentials(v))) => v == c,
            (Credentials::Unreadable, None) => true,
            _ => false,
        },
{
    match read {
        Credentials::NoVault => Some(RksMessage::SetRegistryCredentials(Vec::new())),
        Credentials::Listed(c) => Some(RksMessage::SetRegistryCredentials(c)),
        Credentials::Unreadable => None,
    }
}

/// The error that a worker is gone before its network could be set.
pub fn no_worker(node_id: &str) -> (r: String)
    ensures
        r@ == "No active worker for "@ + node_id@,
{
    crate::text::concat2("No active worker for ", node_id)
}

/// A worker is stored with the subnet that it leased, and nothing else of it changes; it needs a
/// name.
pub proof fn law_worker_is_stored_with_its_subnet(
    node: Node,
    subnet: Ipv4Network,
    r: Node,
    id: Result<String, RksMessage>,
)
    requires
        call_ensures(node_to_store, (node, subnet), r),
        call_ensures(worker_id, (&node,), id),
    ensures
        r.spec.pod_cidr@ == address::ipv4_network_text(subnet),
        r.metadata == node.metadata,
        r.status == node.status,
        id is Ok <==> node.metadata.name@.len() > 0,
        id matches Ok(n) ==> n == node.metadata.name,
        id matches Err(m) ==> m is Error,
{
}

/// A worker is told its subnets, each with the network that it is part of, where that family is in
/// use; a subnet without a network is an error.
pub proof fn law_settings_name_the_subnets(
    node_id: String,
    config: Config,
    ip_masq: bool,
    sn4: Option<Ipv4Network>,
    sn6: Option<Ipv6Network>,
    r: Result<NodeNetworkConfig, String>,
)
    requires
        call_ensures(build_node_network_config, (node_id, &config, ip_masq, sn4, sn6), r),
    ensures
        r is Err <==> (config.enable_ipv4 && sn4 is Some && config.network is None) || (
        config.enable_ipv6 && sn6 is Some && config.ipv6_network is None),
        r matches Ok(c) ==> {
            let lines = text::lines_of(c.subnet_env@);
            &&& c.node_id == node_id
            &&& config.enable_ipv4 && sn4 is Some ==> lines.len() >= 3 && lines[0] == "RKL_NETWORK"@
                + "="@ + address::ipv4_network_text(config.network->0) && lines[1] == "RKL_SUBNET"@
                + "="@ + address::ipv4_network_text(sn4->0)
            &&& config.enable_ipv6 && sn6 is Some ==> lines.len() >= 3 && lines[lines.len() - 3]
                == "RKL_IPV6_NETWORK"@ + "="@ + address::ipv6_network_text(config.ipv6_network->0)
                && lines[lines.len() - 2] == "RKL_IPV6_SUBNET"@ + "="@
                + address::ipv6_network_text(sn6->0)
            &&& lines.len() >= 1 && lines.last() == if ip_masq {
                "RKL_IPMASQ"@ + "="@ + "true"@
            } else {
                "RKL_IPMASQ"@ + "="@ + "false"@
            }
            &&& lines.len() == 1 + (if config.enable_ipv4 && sn4 is Some {
                2int
            } else {
                0
            }) + (if config.enable_ipv6 && sn6 is Some {
                2int
            } else {
                0
            })
        },
{
}

/// A worker's lease holds the address that it came from, in the family of that address.
pub proof fn law_lease_holds_the_address_of_the_worker(
    node_id: String,
    remote: IpAddr,
    r: LeaseAttrs,
)
    requires
        call_ensures(worker_lease_attrs, (node_id, remote), r),
    ensures
        r.deep_view().node_id == node_id@,
        r.deep_view().backend_type == "hostgw"@,
        remote matches IpAddr::V4(a) ==> r.deep_view().public_ip == a && r.deep_view().public_ipv6
            is None,
        remote matches IpAddr::V6(a) ==> r.deep_view().public_ip.bits == 0
            && r.deep_view().public_ipv6 == Some(a),
{
}

/// Rules are sent only if all of them could be made at first, in the order in which they have to
/// be set: the tables, the maps, and then the services.
pub proof fn law_first_rules_come_in_order(
    full: Option<String>,
    maps: Option<String>,
    discovery: Option<String>,
    r: Vec<RksMessage>,
)
    requires
        call_ensures(initial_rules, (full, maps, discovery), r),
    ensures
        full is None ==> r@.len() == 0,
        full matches Some(f) ==> r@.len() >= 1 && r@[0] == RksMessage::SetNftablesRules(f),
        full is Some && maps is Some ==> r@.len() >= 2 && r@[1] == RksMessage::SetNftablesRules(
            maps->0,
        ),
        full is Some && discovery is Some ==> r@.last() == RksMessage::UpdateNftablesRules(
            discovery->0,
        ),
        full is Some ==> r@.len() == 1 + (if maps is Some {
            1int
        } else {
            0
        }) + (if discovery is Some {
            1int
        } else {
            0
        }),
{
}

} // verus!

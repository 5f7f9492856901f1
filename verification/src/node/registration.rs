//! The course of a worker's registration.
use vstd::prelude::*;
use crate::network::address;
use crate::network::address::{Ipv4Addr, Ipv4Network, Ipv6Network};
use crate::network::config::Config;
use crate::network::lease::{LeaseAttrs, LeaseAttrsView};
use crate::node::register;
use crate::node::register::{
    build_node_network_config, initial_credentials, initial_rules, node_to_store, worker_id,
    worker_lease_attrs, Credentials,
};
use crate::protocol::message;
use crate::protocol::message::{IpAddr, RksMessage};
use crate::protocol::node::{Node, NodeSpec};

verus! {

/// How far a registration has come.
#[derive(Debug)]
pub enum Registration {
    /// A subnet is leased.
    Leasing { node: Node },
    /// The node is stored.
    Storing { node: Node, subnet: Ipv4Network, ipv6_subnet: Option<Ipv6Network> },
    /// The worker has joined, and what it is told first is gathered.
    Gathering { id: String, subnet: Ipv4Network, ipv6_subnet: Option<Ipv6Network> },
    /// The worker is told that it is registered.
    Greeting { id: String, subnet: Ipv4Network, ipv6_subnet: Option<Ipv6Network> },
    /// The network of the pods is read.
    Configuring { id: String, subnet: Ipv4Network, ipv6_subnet: Option<Ipv6Network> },
    Ended,
}

/// What is to be done next.
#[derive(Debug)]
pub enum RegistrationAction {
    /// Answer with the error, and end.
    Refuse(RksMessage),
    Lease(LeaseAttrs),
    Store,
    /// Note the worker's session, so that it gets what is sent to all workers from now on, and
    /// gather what it is told first.
    Join,
    /// Queue the messages for the worker, and acknowledge the registration.
    Greet(Vec<RksMessage>),
    /// Forget the worker's session, and end.
    Leave,
    ReadNetwork,
    /// Queue the message for the worker: it is registered.
    Configure(RksMessage),
    Fail(String),
}

/// What an action came to.
#[derive(Debug)]
pub enum RegistrationEvent {
    Leased { subnet: Ipv4Network, ipv6_subnet: Option<Ipv6Network> },
    Stored,
    /// The rules, as far as they could be made, and the credentials.
    Gathered {
        full: Option<String>,
        maps: Option<String>,
        discovery: Option<String>,
        credentials: Credentials,
    },
    /// Whether the worker could be told.
    Greeted(bool),
    Network(Config),
    Failed(String),
}

/// Whether the registration waits for an event of that kind.
pub open spec fn awaits(st: Registration, event: RegistrationEvent) -> bool {
    match st {
        Registration::Leasing { .. } => event is Leased || event is Failed,
        Registration::Storing { .. } => event is Stored || event is Failed,
        Registration::Gathering { .. } => event is Gathered,
        Registration::Greeting { .. } => event is Greeted,
        Registration::Configuring { .. } => event is Network || event is Failed,
        Registration::Ended => false,
    }
}

/// What a worker that connects from an address leases a subnet with.
pub open spec fn attrs_of(name: Seq<char>, remote: IpAddr) -> LeaseAttrsView {
    LeaseAttrsView {
        public_ip: match remote {
            IpAddr::V4(a) => a,
            IpAddr::V6(_) => Ipv4Addr { bits: 0 },
        },
        public_ipv6: match remote {
            IpAddr::V4(_) => None,
            IpAddr::V6(a) => Some(a),
        },
        backend_type: "hostgw"@,
        node_id: name,
    }
}

/// What a registration begins with: a worker needs a name.
pub open spec fn begins(
    node: Node,
    remote: IpAddr,
    r: (Registration, RegistrationAction),
) -> bool {
    if node.metadata.name@.len() == 0 {
        r.0 is Ended && (r.1 matches RegistrationAction::Refuse(m) && message::reports(
            m,
            "invalid node: metadata.name is empty"@,
        ))
    } else {
        r.0 == (Registration::Leasing { node }) && (r.1 matches RegistrationAction::Lease(a)
            && a.deep_view() == attrs_of(node.metadata.name@, remote))
    }
}

/// The messages that a worker is told first.
pub open spec fn first_messages(
    full: Option<String>,
    maps: Option<String>,
    discovery: Option<String>,
    credentials: Credentials,
    messages: Seq<RksMessage>,
) -> bool {
    let rules = register::rules_of(full, maps, discovery);
    match credentials {
        Credentials::Unreadable => messages == rules,
        Credentials::NoVault => messages.len() == rules.len() + 1 && messages.drop_last() == rules
            && (messages.last() matches RksMessage::SetRegistryCredentials(v) && v@.len() == 0),
        Credentials::Listed(c) => messages == rules.push(RksMessage::SetRegistryCredentials(c)),
    }
}

/// What follows an event. A worker that cannot be told that it is registered leaves again.
pub open spec fn follows(
    st: Registration,
    event: RegistrationEvent,
    r: (Registration, RegistrationAction),
) -> bool {
    match (st, event) {
        (
            Registration::Leasing { node },
            RegistrationEvent::Leased { subnet, ipv6_subnet },
        ) => r.1 is Store && (r.0 matches Registration::Storing {
            node: n,
            subnet: s4,
            ipv6_subnet: s6,
        } && s4 == subnet && s6 == ipv6_subnet && n.spec.pod_cidr@ == address::ipv4_network_text(
            subnet,
        ) && n == (Node { spec: NodeSpec { pod_cidr: n.spec.pod_cidr, ..node.spec }, ..node })),
        (Registration::Storing { node, subnet, ipv6_subnet }, RegistrationEvent::Stored) => r.0
            == (Registration::Gathering { id: node.metadata.name, subnet, ipv6_subnet }) && r.1
            is Join,
        (
            Registration::Gathering { id, subnet, ipv6_subnet },
            RegistrationEvent::Gathered { full, maps, discovery, credentials },
        ) => r.0 == (Registration::Greeting { id, subnet, ipv6_subnet }) && (
        r.1 matches RegistrationAction::Greet(messages) && first_messages(
            full,
            maps,
            discovery,
            credentials,
            messages@,
        )),
        (Registration::Greeting { id, subnet, ipv6_subnet }, RegistrationEvent::Greeted(told)) => {
            if told {
                r.0 == (Registration::Configuring { id, subnet, ipv6_subnet }) && r.1
                    is ReadNetwork
            } else {
                r.0 is Ended && r.1 is Leave
            }
        },
        (
            Registration::Configuring { id, subnet, ipv6_subnet },
            RegistrationEvent::Network(config),
        ) => r.0 is Ended && match register::env_text(config, false, Some(subnet), ipv6_subnet) {
            Ok(env) => r.1 matches RegistrationAction::Configure(RksMessage::SetNetwork(c))
                && c.node_id == id && c.subnet_env@ == env,
            Err(m) => r.1 matches RegistrationAction::Fail(t) && t@ == m,
        },
        (_, RegistrationEvent::Failed(m)) => r.0 is Ended && r.1 == RegistrationAction::Fail(m),
        _ => false,
    }
}

/// Begins the registration of a worker that connects from an address.
pub fn register_worker(node: Node, remote: IpAddr) -> (r: (Registration, RegistrationAction))
    ensures
        begins(node, remote, r),
{
    match worker_id(&node) {
        Err(m) => (Registration::Ended, RegistrationAction::Refuse(m)),
        Ok(id) => {
            let attrs = worker_lease_attrs(id, remote);
            (Registration::Leasing { node }, RegistrationAction::Lease(attrs))
        },
    }
}

/// What follows an event in the course of a registration.
pub fn registration_step(st: Registration, event: RegistrationEvent) -> (r: (
    Registration,
    RegistrationAction,
))
    requires
        awaits(st, event),
    ensures
        follows(st, event, r),
{
    match (st, event) {
        (
            Registration::Leasing { node },
            RegistrationEvent::Leased { subnet, ipv6_subnet },
        ) => {
            let node = node_to_store(node, subnet);
            (Registration::Storing { node, subnet, ipv6_subnet }, RegistrationAction::Store)
        },
        (Registration::Storing { node, subnet, ipv6_subnet }, RegistrationEvent::Stored) => {
            let id = node.metadata.name;
            (Registration::Gathering { id, subnet, ipv6_subnet }, RegistrationAction::Join)
        },
        (
            Registration::Gathering { id, subnet, ipv6_subnet },
            RegistrationEvent::Gathered { full, maps, discovery, credentials },
        ) => {
            let mut messages = initial_rules(full, maps, discovery);
            let ghost rules = messages@;
            if let Some(m) = initial_credentials(credentials) {
                messages.push(m);
                assert(messages@.drop_last() =~= rules);
            }
            (
                Registration::Greeting { id, subnet, ipv6_subnet },
                RegistrationAction::Greet(messages),
            )
        },
        (Registration::Greeting { id, subnet, ipv6_subnet }, RegistrationEvent::Greeted(told)) => {
            if told {
                (
                    Registration::Configuring { id, subnet, ipv6_subnet },
                    RegistrationAction::ReadNetwork,
                )
            } else {
                (Registration::Ended, RegistrationAction::Leave)
            }
        },
        (
            Registration::Configuring { id, subnet, ipv6_subnet },
            RegistrationEvent::Network(config),
        ) => match build_node_network_config(id, &config, false, Some(subnet), ipv6_subnet) {
            Ok(c) => (
                Registration::Ended,
                RegistrationAction::Configure(RksMessage::SetNetwork(c)),
            ),
            Err(m) => (Registration::Ended, RegistrationAction::Fail(m)),
        },
        (_, RegistrationEvent::Failed(m)) => (Registration::Ended, RegistrationAction::Fail(m)),
        _ => (Registration::Ended, RegistrationAction::Fail(String::new())),
    }
}

/// Whether the worker has joined, and has not left.
pub open spec fn has_joined(st: Registration) -> bool {
    st is Gathering || st is Greeting || st is Configuring
}

/// The number of events that a registration waits for at most.
pub open spec fn events_left(st: Registration) -> nat {
    match st {
        Registration::Leasing { .. } => 5,
        Registration::Storing { .. } => 4,
        Registration::Gathering { .. } => 3,
        Registration::Greeting { .. } => 2,
        Registration::Configuring { .. } => 1,
        Registration::Ended => 0,
    }
}

/// A registration comes to its end. A worker joins once, before it is told anything, and leaves
/// exactly when it cannot be told that it is registered.
pub proof fn law_registration_ends(
    st: Registration,
    event: RegistrationEvent,
    r: (Registration, RegistrationAction),
)
    requires
        awaits(st, event),
        follows(st, event, r),
    ensures
        events_left(r.0) < events_left(st),
        r.1 is Join <==> !has_joined(st) && has_joined(r.0),
        r.1 is Greet || r.1 is Configure ==> has_joined(st),
        r.1 is Leave <==> event == RegistrationEvent::Greeted(false),
{
}

/// A worker is told the subnet that is stored for it, where the network has IPv4 addresses.
pub proof fn law_worker_is_told_its_subnet(
    node: Node,
    subnet: Ipv4Network,
    ipv6_subnet: Option<Ipv6Network>,
    config: Config,
    first: (Registration, RegistrationAction),
    last: (Registration, RegistrationAction),
)
    requires
        config.enable_ipv4,
        follows(
            Registration::Leasing { node },
            RegistrationEvent::Leased { subnet, ipv6_subnet },
            first,
        ),
        follows(
            Registration::Configuring { id: node.metadata.name, subnet, ipv6_subnet },
            RegistrationEvent::Network(config),
            last,
        ),
        last.1 is Configure,
    ensures
        first.0 matches Registration::Storing { node: n, subnet: s4, ipv6_subnet: s6 }
            && last.1 matches RegistrationAction::Configure(RksMessage::SetNetwork(c)) && (
        register::env_line("RKL_NETWORK"@, address::ipv4_network_text(config.network->0))
            + register::env_line("RKL_SUBNET"@, n.spec.pod_cidr@)).is_prefix_of(c.subnet_env@),
{
    let lines = register::env_line(
        "RKL_NETWORK"@,
        address::ipv4_network_text(config.network->0),
    ) + register::env_line("RKL_SUBNET"@, address::ipv4_network_text(subnet));
    let env = register::env_text(config, false, Some(subnet), ipv6_subnet)->Ok_0;
    assert(env.take(lines.len() as int) =~= lines);
}

/// A worker is registered step by step: it leases a subnet, is stored with it, joins, is greeted,
/// and is told its settings. It joins only after it was stored, and leaves again when it cannot be
/// greeted.
pub proof fn law_worker_joins_after_it_is_stored(
    node: Node,
    subnet: Ipv4Network,
    ipv6_subnet: Option<Ipv6Network>,
    id: String,
    told: bool,
    m: String,
    a: (Registration, RegistrationAction),
    b: (Registration, RegistrationAction),
    c: (Registration, RegistrationAction),
    f: (Registration, RegistrationAction),
)
    requires
        call_ensures(
            registration_step,
            (Registration::Leasing { node }, RegistrationEvent::Leased { subnet, ipv6_subnet }),
            a,
        ),
        call_ensures(
            registration_step,
            (Registration::Storing { node, subnet, ipv6_subnet }, RegistrationEvent::Stored),
            b,
        ),
        call_ensures(
            registration_step,
            (Registration::Greeting { id, subnet, ipv6_subnet }, RegistrationEvent::Greeted(told)),
            c,
        ),
        call_ensures(
            registration_step,
            (Registration::Leasing { node }, RegistrationEvent::Failed(m)),
            f,
        ),
    ensures
        a.1 is Store && (a.0 matches Registration::Storing { node: n, subnet: s, ipv6_subnet: t }
            && n.metadata == node.metadata && n.spec.pod_cidr@ == address::ipv4_network_text(subnet)
            && s == subnet && t == ipv6_subnet),
        b.1 is Join && b.0 == (Registration::Gathering {
            id: node.metadata.name,
            subnet,
            ipv6_subnet,
        }),
        told ==> c.1 is ReadNetwork && c.0 == (Registration::Configuring {
            id,
            subnet,
            ipv6_subnet,
        }),
        !told ==> c.1 is Leave && c.0 is Ended,
        f.0 is Ended && f.1 == RegistrationAction::Fail(m),
{
}

/// A worker without a name is refused; another one asks for a lease in its name, with the address
/// that it came from.
pub proof fn law_worker_asks_for_a_lease_in_its_name(
    node: Node,
    remote: IpAddr,
    r: (Registration, RegistrationAction),
)
    requires
        call_ensures(register_worker, (node, remote), r),
    ensures
        node.metadata.name@.len() == 0 ==> r.0 is Ended && (r.1 matches RegistrationAction::Refuse(m)
            && m is Error),
        node.metadata.name@.len() > 0 ==> r.0 == (Registration::Leasing { node }) && (
        r.1 matches RegistrationAction::Lease(l) && l.deep_view().node_id == node.metadata.name@ && (
        remote matches IpAddr::V4(x) ==> l.deep_view().public_ip == x) && (
        remote matches IpAddr::V6(x) ==> l.deep_view().public_ipv6 == Some(x))),
{
}

} // verus!

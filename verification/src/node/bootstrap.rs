//! The course in which the control plane's own node joins the pod network.
use vstd::prelude::*;
use crate::network::address::{Ipv4Network, Ipv6Network};
use crate::network::backend::interface::ExternalInterface;
use crate::network::config::Config;
use crate::network::lease::LeaseAttrs;
use crate::node::local_node;
use crate::node::local_node::local_lease_attrs;
use crate::node::register;
use crate::node::register::build_node_network_config;
use crate::protocol::message::RksMessage;
use crate::text::{concat2, concat4};

verus! {

/// How far the node has come.
#[derive(Debug)]
pub enum Bootstrap {
    /// The configuration of the network is read.
    Reading { id: String },
    /// The interface that leads to other nodes is looked for.
    Looking { id: String, config: Config },
    /// A subnet is leased.
    Leasing { id: String, config: Config },
    /// The node's session is noted.
    Joining { id: String, config: Config, subnet: Ipv4Network, ipv6_subnet: Option<Ipv6Network> },
    Ended,
}

/// What is to be done next.
#[derive(Debug)]
pub enum BootstrapAction {
    ReadNetwork,
    /// Look for an interface with addresses of the enabled kinds.
    FindInterface { enable_ipv4: bool, enable_ipv6: bool },
    Lease(LeaseAttrs),
    /// Note the node's session, so that it gets what is sent to all nodes from now on.
    Join,
    /// Queue the message for the node.
    Configure(RksMessage),
    Fail(String),
}

/// What an action came to.
#[derive(Debug)]
pub enum BootstrapEvent {
    Network(Config),
    /// Neither kind of addresses can be used.
    NoStack(String),
    Interface(ExternalInterface),
    Leased { subnet: Ipv4Network, ipv6_subnet: Option<Ipv6Network> },
    Joined,
    Failed(String),
}

/// Whether the node waits for an event of that kind.
pub open spec fn awaits(st: Bootstrap, event: BootstrapEvent) -> bool {
    match st {
        Bootstrap::Reading { .. } => event is Network || event is Failed,
        Bootstrap::Looking { .. } => event is Interface || event is NoStack || event is Failed,
        Bootstrap::Leasing { .. } => event is Leased || event is Failed,
        Bootstrap::Joining { .. } => event is Joined,
        Bootstrap::Ended => false,
    }
}

/// Whether the course ends with an error.
pub open spec fn fails(r: (Bootstrap, BootstrapAction), m: Seq<char>) -> bool {
    r.0 is Ended && (r.1 matches BootstrapAction::Fail(t) && t@ == m)
}

/// What follows an event. An error is reported with what was tried.
pub open spec fn follows(
    st: Bootstrap,
    event: BootstrapEvent,
    r: (Bootstrap, BootstrapAction),
) -> bool {
    match (st, event) {
        (Bootstrap::Reading { id }, BootstrapEvent::Network(config)) => r.0
            == (Bootstrap::Looking { id, config }) && r.1 == (BootstrapAction::FindInterface {
            enable_ipv4: config.enable_ipv4,
            enable_ipv6: config.enable_ipv6,
        }),
        (Bootstrap::Reading { id }, BootstrapEvent::Failed(m)) => fails(
            r,
            "failed to fetch network config for local rks node: "@ + m@,
        ),
        (Bootstrap::Looking { id, config }, BootstrapEvent::Interface(iface)) => r.0
            == (Bootstrap::Leasing { id, config }) && (r.1 matches BootstrapAction::Lease(a)
            && a.deep_view() == local_node::attrs_of(iface, config.backend_type@, id@)),
        (Bootstrap::Looking { id, config }, BootstrapEvent::NoStack(m)) => fails(
            r,
            "failed to determine local rks node IP stack: "@ + m@,
        ),
        (Bootstrap::Looking { id, config }, BootstrapEvent::Failed(m)) => fails(
            r,
            "failed to discover external interface for local rks node: "@ + m@,
        ),
        (
            Bootstrap::Leasing { id, config },
            BootstrapEvent::Leased { subnet, ipv6_subnet },
        ) => r.0 == (Bootstrap::Joining { id, config, subnet, ipv6_subnet }) && r.1 is Join,
        (Bootstrap::Leasing { id, config }, BootstrapEvent::Failed(m)) => fails(
            r,
            "failed to acquire lease for local rks node "@ + id@ + ": "@ + m@,
        ),
        (Bootstrap::Joining { id, config, subnet, ipv6_subnet }, BootstrapEvent::Joined) => {
            match register::env_text(config, false, Some(subnet), ipv6_subnet) {
                Ok(env) => r.0 is Ended && (
                r.1 matches BootstrapAction::Configure(RksMessage::SetNetwork(c)) && c.node_id == id
                    && c.subnet_env@ == env),
                Err(m) => fails(
                    r,
                    "failed to build network config payload for "@ + id@ + ": "@ + m,
                ),
            }
        },
        _ => false,
    }
}

/// Begins to bring the node of a name into the pod network.
pub fn bootstrap(id: String) -> (r: (Bootstrap, BootstrapAction))
    ensures
        r.0 == (Bootstrap::Reading { id }),
        r.1 is ReadNetwork,
{
    (Bootstrap::Reading { id }, BootstrapAction::ReadNetwork)
}

fn fail(m: String) -> (r: (Bootstrap, BootstrapAction))
    ensures
        fails(r, m@),
{
    (Bootstrap::Ended, BootstrapAction::Fail(m))
}

/// What follows an event on the way of the node into the pod network.
pub fn bootstrap_step(st: Bootstrap, event: BootstrapEvent) -> (r: (Bootstrap, BootstrapAction))
    requires
        awaits(st, event),
    ensures
        follows(st, event, r),
{
    match (st, event) {
        (Bootstrap::Reading { id }, BootstrapEvent::Network(config)) => {
            let action = BootstrapAction::FindInterface {
                enable_ipv4: config.enable_ipv4,
                enable_ipv6: config.enable_ipv6,
            };
            (Bootstrap::Looking { id, config }, action)
        },
        (Bootstrap::Looking { id, config }, BootstrapEvent::Interface(iface)) => {
            let attrs = local_lease_attrs(&iface, config.backend_type.clone(), id.clone());
            (Bootstrap::Leasing { id, config }, BootstrapAction::Lease(attrs))
        },
        (Bootstrap::Looking { id: _, config: _ }, BootstrapEvent::NoStack(m)) => fail(
            concat2("failed to determine local rks node IP stack: ", m.as_str()),
        ),
        (
            Bootstrap::Leasing { id, config },
            BootstrapEvent::Leased { subnet, ipv6_subnet },
        ) => (Bootstrap::Joining { id, config, subnet, ipv6_subnet }, BootstrapAction::Join),
        (Bootstrap::Joining { id, config, subnet, ipv6_subnet }, _) => {
            let name = id.clone();
            match build_node_network_config(id, &config, false, Some(subnet), ipv6_subnet) {
                Ok(c) => (Bootstrap::Ended, BootstrapAction::Configure(RksMessage::SetNetwork(c))),
                Err(m) => fail(
                    concat4(
                        "failed to build network config payload for ",
                        name.as_str(),
                        ": ",
                        m.as_str(),
                    ),
                ),
            }
        },
        (Bootstrap::Reading { id: _ }, BootstrapEvent::Failed(m)) => fail(
            concat2("failed to fetch network config for local rks node: ", m.as_str()),
        ),
        (Bootstrap::Looking { id: _, config: _ }, BootstrapEvent::Failed(m)) => fail(
            concat2("failed to discover external interface for local rks node: ", m.as_str()),
        ),
        (Bootstrap::Leasing { id, config: _ }, BootstrapEvent::Failed(m)) => fail(
            concat4(
                "failed to acquire lease for local rks node ",
                id.as_str(),
                ": ",
                m.as_str(),
            ),
        ),
        _ => (Bootstrap::Ended, BootstrapAction::Fail(String::new())),
    }
}

/// The number of events that the node waits for at most.
pub open spec fn events_left(st: Bootstrap) -> nat {
    match st {
        Bootstrap::Reading { .. } => 4,
        Bootstrap::Looking { .. } => 3,
        Bootstrap::Leasing { .. } => 2,
        Bootstrap::Joining { .. } => 1,
        Bootstrap::Ended => 0,
    }
}

/// The node comes to an end of its way: it is told its settings, or an error is reported.
pub proof fn law_bootstrap_ends(
    st: Bootstrap,
    event: BootstrapEvent,
    r: (Bootstrap, BootstrapAction),
)
    requires
        awaits(st, event),
        follows(st, event, r),
    ensures
        events_left(r.0) < events_left(st),
        r.0 is Ended <==> (r.1 is Configure || r.1 is Fail),
        r.1 is Configure ==> st is Joining,
{
}

/// The node applies the settings that it is told: they are addressed to it, and hold the subnet
/// that it leased.
pub proof fn law_local_node_applies_its_settings(
    id: String,
    config: Config,
    subnet: Ipv4Network,
    ipv6_subnet: Option<Ipv6Network>,
    r: (Bootstrap, BootstrapAction),
)
    requires
        follows(
            Bootstrap::Joining { id, config, subnet, ipv6_subnet },
            BootstrapEvent::Joined,
            r,
        ),
        r.1 is Configure,
    ensures
        local_node::handles(id@, r.1->Configure_0) matches local_node::LocalStep::ApplySubnet(env)
            && register::env_text(config, false, Some(subnet), ipv6_subnet) == Ok::<
            Seq<char>,
            Seq<char>,
        >(env@),
{
}

/// The node of the control plane joins step by step: it reads the network, finds its interface,
/// leases a subnet and joins; what fails ends it.
pub proof fn law_local_node_joins_with_its_lease(
    id: String,
    config: Config,
    iface: ExternalInterface,
    subnet: Ipv4Network,
    ipv6_subnet: Option<Ipv6Network>,
    m: String,
    a: (Bootstrap, BootstrapAction),
    b: (Bootstrap, BootstrapAction),
    c: (Bootstrap, BootstrapAction),
    f: (Bootstrap, BootstrapAction),
)
    requires
        call_ensures(bootstrap_step, (Bootstrap::Reading { id }, BootstrapEvent::Network(config)), a),
        call_ensures(
            bootstrap_step,
            (Bootstrap::Looking { id, config }, BootstrapEvent::Interface(iface)),
            b,
        ),
        call_ensures(
            bootstrap_step,
            (
                Bootstrap::Leasing { id, config },
                BootstrapEvent::Leased { subnet, ipv6_subnet },
            ),
            c,
        ),
        call_ensures(
            bootstrap_step,
            (Bootstrap::Leasing { id, config }, BootstrapEvent::Failed(m)),
            f,
        ),
    ensures
        a.0 == (Bootstrap::Looking { id, config }),
        a.1 == (BootstrapAction::FindInterface {
            enable_ipv4: config.enable_ipv4,
            enable_ipv6: config.enable_ipv6,
        }),
        b.0 == (Bootstrap::Leasing { id, config }),
        b.1 matches BootstrapAction::Lease(l) && l.deep_view().node_id == id@
            && l.deep_view().backend_type == config.backend_type@ && (
        iface.ext_addr matches Some(x) ==> l.deep_view().public_ip == x),
        c.0 == (Bootstrap::Joining { id, config, subnet, ipv6_subnet }),
        c.1 is Join,
        f.0 is Ended && f.1 is Fail,
{
}

} // verus!

//! Host-GW backend: the routing table of the host leads to the pods of other nodes.
use vstd::prelude::*;
use crate::network::address::Ipv4Addr;
use crate::network::backend::interface::{check_hostgw_compatibility, ExternalInterface};
use crate::network::backend::SimpleNetwork;
use crate::network::lease;
use crate::network::lease::{Event, EventType, Lease, LeaseAttrs, LeaseAttrsView, LeaseWatchResult, LeaseWatcher};
use crate::protocol::value::Value;
use crate::text::str_eq;

verus! {

/// The name of the backend.
pub open spec fn backend_name() -> Seq<char> {
    "host-gw"@
}

/// Host-GW backend implementation
/// This backend uses host routing table to implement container networking
/// without packet encapsulation (no VXLAN, etc.)
#[derive(Debug)]
pub struct HostgwBackend {
    pub ext_iface: ExternalInterface,
}

impl HostgwBackend {
    /// Create a new Host-GW backend instance on an interface that is compatible with it.
    pub fn new(ext_iface: ExternalInterface) -> (r: Result<Self, String>)
        ensures
            r is Ok <==> (ext_iface.ext_addr is Some && ext_iface.iface_addr is Some
                && ext_iface.ext_addr == ext_iface.iface_addr),
            r matches Ok(b) ==> b.ext_iface == ext_iface,
    {
        match check_hostgw_compatibility(&ext_iface) {
            Ok(_) => Ok(HostgwBackend { ext_iface }),
            Err(m) => Err(m),
        }
    }

    /// What the node says of itself when it leases a subnet.
    pub fn lease_attrs(&self) -> (r: LeaseAttrs)
        requires
            self.ext_iface.ext_addr is Some,
        ensures
            r.deep_view() == (LeaseAttrsView {
                public_ip: self.ext_iface.ext_addr->0,
                public_ipv6: self.ext_iface.ext_v6_addr,
                backend_type: backend_name(),
                node_id: Seq::empty(),
            }),
    {
        let public_ip: Ipv4Addr = match self.ext_iface.ext_addr {
            Some(a) => a,
            None => Ipv4Addr { bits: 0 },
        };
        let r = LeaseAttrs {
            public_ip,
            public_ipv6: self.ext_iface.ext_v6_addr,
            backend_type: "host-gw".to_owned(),
            node_id: String::new(),
        };
        assert(r.node_id@ =~= Seq::<char>::empty());
        r
    }
}

/// What is done about the routes of a lease.
#[derive(Debug)]
pub enum RouteChange {
    /// Add the routes to its subnets.
    Add(Lease),
    /// Remove the routes to its subnets.
    Remove(Lease),
    Nothing,
}

/// Handle lease events (add/remove routes). Leases of other backends are ignored.
pub fn handle_lease_event(event: Event, backend_type: &str) -> (r: RouteChange)
    ensures
        r == match event.lease {
            None => RouteChange::Nothing,
            Some(l) => if l.attrs.backend_type@ != backend_type@ {
                RouteChange::Nothing
            } else {
                match event.event_type {
                    EventType::Added => RouteChange::Add(l),
                    EventType::Removed => RouteChange::Remove(l),
                }
            },
        },
{
    match event.lease {
        None => RouteChange::Nothing,
        Some(l) => {
            if !str_eq(l.attrs.backend_type.as_str(), backend_type) {
                return RouteChange::Nothing;
            }
            match event.event_type {
                EventType::Added => RouteChange::Add(l),
                EventType::Removed => RouteChange::Remove(l),
            }
        },
    }
}

/// The events that a result of a watch brings: those of its snapshot, when it has one, and
/// then those of its changes.
pub fn watch_leases(watcher: &mut LeaseWatcher, result: LeaseWatchResult) -> (r: (
    Vec<Event>,
    Vec<Event>,
))
    ensures
        ({
            let own = old(watcher).own_lease.deep_view();
            let known = old(watcher).leases.deep_view();
            let snapshot = result.snapshot.deep_view();
            let events = result.events.deep_view();
            let middle = if result.snapshot@.len() > 0 {
                snapshot.filter(lease::others(own))
            } else {
                known
            };
            &&& r.0.deep_view() == if result.snapshot@.len() > 0 {
                lease::snapshot_changes(own, known, snapshot)
            } else {
                Seq::empty()
            }
            &&& r.1.deep_view() == lease::reported(own, middle, events, events.len() as int)
            &&& final(watcher).leases.deep_view() == lease::known_after(
                own,
                middle,
                events,
                events.len() as int,
            )
        }),
        final(watcher).own_lease == old(watcher).own_lease,
{
    assert(result.events.deep_view().len() == result.events@.len());
    let mut first: Vec<Event> = Vec::new();
    assert(first.deep_view() =~= Seq::empty());
    if result.snapshot.len() > 0 {
        first = watcher.reset(result.snapshot);
    }
    let second = watcher.update(result.events);
    (first, second)
}

/// Route-based network implementation for host-gw backend
#[derive(Debug)]
pub struct RouteNetwork {
    pub simple_network: SimpleNetwork,
    pub lease_watcher: Option<LeaseWatcher>,
    pub backend_type: String,
    pub running: bool,
}

impl RouteNetwork {
    /// A network without a lease, not running.
    pub fn new(ext_iface: ExternalInterface, backend_type: String) -> (r: Self)
        ensures
            r == (RouteNetwork {
                simple_network: SimpleNetwork { ext_iface, lease: None },
                lease_watcher: None,
                backend_type,
                running: false,
            }),
    {
        let simple_network = SimpleNetwork { ext_iface, lease: None };
        RouteNetwork { simple_network, lease_watcher: None, backend_type, running: false }
    }

    /// The lease of the network.
    pub fn get_lease(&self) -> (r: Result<Lease, String>)
        ensures
            match self.simple_network.lease {
                Some(l) => r matches Ok(c) && c.deep_view() == l.deep_view(),
                None => r matches Err(m) && m@ == "No lease available"@,
            },
    {
        self.simple_network.get_lease()
    }

    /// Gives the network a lease, from which on it follows the leases of others.
    pub fn set_lease(&mut self, lease: Lease)
        ensures
            final(self).lease_watcher matches Some(w) && w.own_lease.deep_view()
                == lease.deep_view() && w.leases@.len() == 0,
            *final(self) == (RouteNetwork {
                simple_network: SimpleNetwork { lease: Some(lease), ..old(self).simple_network },
                lease_watcher: final(self).lease_watcher,
                ..*old(self)
            }),
    {
        self.lease_watcher = Some(LeaseWatcher { own_lease: lease.copy(), leases: Vec::new() });
        self.simple_network.set_lease(lease);
    }

    /// Starts the network, unless it runs.
    pub fn run(&mut self) -> (r: Result<(), String>)
        ensures
            match r {
                Ok(_) => !old(self).running,
                Err(m) => old(self).running && m@ == "Network is already running"@,
            },
            *final(self) == (RouteNetwork { running: true, ..*old(self) }),
    {
        if self.running {
            return Err("Network is already running".to_owned());
        }
        self.running = true;
        Ok(())
    }

    /// Notes that the watch of leases has failed.
    pub fn watch_failed(&mut self)
        ensures
            *final(self) == (RouteNetwork { running: false, ..*old(self) }),
    {
        self.running = false;
    }

    /// Stops the network: whether it ran, so that its routes are to be removed.
    pub fn stop(&mut self) -> (r: bool)
        ensures
            r == old(self).running,
            *final(self) == (RouteNetwork { running: false, ..*old(self) }),
    {
        let was = self.running;
        self.running = false;
        was
    }

    /// The MTU of the network's interface, if it tells.
    pub fn mtu(&self) -> (r: Option<u32>)
        ensures
            r == self.simple_network.ext_iface.iface.mtu,
    {
        self.simple_network.mtu()
    }
}

/// The network never adds a route for its own lease: changes of the own subnet bring no event.
pub proof fn law_own_lease_brings_no_event(
    own: lease::LeaseView,
    known: Seq<lease::LeaseView>,
    e: lease::EventView,
)
    requires
        e.lease matches Some(l) && lease::is_own(own, l),
    ensures
        lease::reported(own, known, seq![e], 1).len() == 0,
        lease::known_after(own, known, seq![e], 1) == known,
{
    reveal_with_fuel(lease::reported, 2);
    reveal_with_fuel(lease::known_after, 2);
}

/// A route is added or removed for a lease as the lease is, and only for one of the same backend.
pub proof fn law_routes_follow_the_leases(event: Event, backend_type: &str, r: RouteChange)
    requires
        call_ensures(handle_lease_event, (event, backend_type), r),
    ensures
        r is Nothing <==> !(event.lease matches Some(l) && l.attrs.backend_type@ == backend_type@),
        r matches RouteChange::Add(l) ==> event.event_type == EventType::Added && event.lease == Some(l),
        r matches RouteChange::Remove(l) ==> event.event_type == EventType::Removed && event.lease
            == Some(l),
{
}

} // verus!

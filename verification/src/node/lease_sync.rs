//! Tells each node the routes to the others.
use vstd::prelude::*;
use crate::protocol::message::{RksMessage, Route};
use crate::text::str_eq;

verus! {

/// The routes to the subnets that a node has leased.
#[derive(Debug)]
pub struct LeaseRoutes {
    pub node_id: String,
    pub v4: Option<Route>,
    pub v6: Option<Route>,
}

/// The routes of a lease, IPv4 first.
pub open spec fn routes_of(l: LeaseRoutes) -> Seq<Route> {
    let a = match l.v4 {
        Some(r) => seq![r],
        None => Seq::empty(),
    };
    let b = match l.v6 {
        Some(r) => seq![r],
        None => Seq::empty(),
    };
    a + b
}

/// The routes to the nodes of the first `n` leases other than a node.
pub open spec fn routes_for(node_id: Seq<char>, leases: Seq<LeaseRoutes>, n: int) -> Seq<Route>
    decreases n,
{
    if n <= 0 {
        Seq::empty()
    } else if leases[n - 1].node_id@ == node_id {
        routes_for(node_id, leases, n - 1)
    } else {
        routes_for(node_id, leases, n - 1) + routes_of(leases[n - 1])
    }
}

/// Calculate routes for a node from all current leases.
pub fn calculate_routes_for_node(node_id: &str, leases: &Vec<LeaseRoutes>) -> (r: Vec<Route>)
    ensures
        r@ == routes_for(node_id@, leases@, leases@.len() as int),
{
    let mut out: Vec<Route> = Vec::new();
    for i in 0..leases.len()
        invariant
            out@ == routes_for(node_id@, leases@, i as int),
    {
        let ghost before = out@;
        if !str_eq(leases[i].node_id.as_str(), node_id) {
            if let Some(r) = leases[i].v4 {
                out.push(r);
            }
            if let Some(r) = leases[i].v6 {
                out.push(r);
            }
            assert(out@ =~= before + routes_of(leases@[i as int]));
        }
    }
    out
}

/// Whether the message tells the node of the lease at a position its routes.
pub open spec fn is_update(m: RksMessage, leases: Seq<LeaseRoutes>, i: int) -> bool {
    m matches RksMessage::UpdateRoutes(id, routes) && id == leases[i].node_id && routes@
        == routes_for(leases[i].node_id@, leases, leases.len() as int)
}

/// The messages to the nodes of all current leases: one for each lease, in order, which tells
/// its node the routes to the others.
pub fn process_results(leases: &Vec<LeaseRoutes>) -> (r: Vec<RksMessage>)
    ensures
        r@.len() == leases@.len(),
        forall|i: int| 0 <= i < r@.len() ==> is_update(#[trigger] r@[i], leases@, i),
{
    let mut out: Vec<RksMessage> = Vec::new();
    for i in 0..leases.len()
        invariant
            out@.len() == i,
            forall|k: int| 0 <= k < i ==> is_update(#[trigger] out@[k], leases@, k),
    {
        let id = leases[i].node_id.clone();
        let routes = calculate_routes_for_node(id.as_str(), leases);
        out.push(RksMessage::UpdateRoutes(id, routes));
    }
    out
}

/// A node is told the routes of every lease of another node, and no route of its own.
pub proof fn law_routes_lead_to_other_nodes(
    node_id: Seq<char>,
    leases: Seq<LeaseRoutes>,
    n: int,
    r: Route,
)
    requires
        0 <= n <= leases.len(),
    ensures
        routes_for(node_id, leases, n).contains(r) <==> exists|i: int|
            0 <= i < n && (#[trigger] leases[i]).node_id@ != node_id && routes_of(
                leases[i],
            ).contains(r),
    decreases n,
{
    if n > 0 {
        law_routes_lead_to_other_nodes(node_id, leases, n - 1, r);
        let before = routes_for(node_id, leases, n - 1);
        let more = routes_of(leases[n - 1]);
        if leases[n - 1].node_id@ != node_id {
            let s = before + more;
            if s.contains(r) {
                let k = choose|k: int| 0 <= k < s.len() && s[k] == r;
                if k < before.len() {
                    assert(before[k] == r);
                } else {
                    assert(more[k - before.len()] == r);
                }
            }
            if before.contains(r) {
                let k = choose|k: int| 0 <= k < before.len() && before[k] == r;
                assert(s[k] == r);
            }
            if more.contains(r) {
                let k = choose|k: int| 0 <= k < more.len() && more[k] == r;
                assert(s[before.len() + k] == r);
            }
        }
    }
}

/// Whether the lease leads to the route.
pub open spec fn leads(l: LeaseRoutes, r: Route) -> bool {
    l.v4 == Some(r) || l.v6 == Some(r)
}

proof fn lemma_routes_for(node_id: Seq<char>, leases: Seq<LeaseRoutes>, n: int, r: Route)
    requires
        0 <= n <= leases.len(),
    ensures
        routes_for(node_id, leases, n).contains(r) <==> exists|k: int|
            0 <= k < n && (#[trigger] leases[k]).node_id@ != node_id && leads(leases[k], r),
    decreases n,
{
    broadcast use vstd::seq_lib::group_seq_properties;

    if n > 0 {
        lemma_routes_for(node_id, leases, n - 1, r);
        let l = leases[n - 1];
        let own = routes_of(l);
        assert(own.contains(r) <==> leads(l, r)) by {
            if l.v4 is Some {
                assert(own[0] == l.v4->0);
                if l.v6 is Some {
                    assert(own[1] == l.v6->0);
                }
            } else if l.v6 is Some {
                assert(own[0] == l.v6->0);
            }
        }
    }
}

/// A node gets the routes of the leases of all other nodes, and of no other.
pub proof fn law_node_gets_the_routes_of_the_others(
    node_id: &str,
    leases: Vec<LeaseRoutes>,
    r: Vec<Route>,
    route: Route,
)
    requires
        call_ensures(calculate_routes_for_node, (node_id, &leases), r),
    ensures
        r@.contains(route) <==> exists|k: int|
            0 <= k < leases@.len() && (#[trigger] leases@[k]).node_id@ != node_id@ && leads(
                leases@[k],
                route,
            ),
{
    lemma_routes_for(node_id@, leases@, leases@.len() as int, route);
}

/// Each node of a lease is told the routes that lead to the others.
pub proof fn law_each_node_is_told_its_routes(
    leases: Vec<LeaseRoutes>,
    r: Vec<RksMessage>,
    i: int,
    route: Route,
)
    requires
        call_ensures(process_results, (&leases,), r),
        0 <= i < leases@.len(),
    ensures
        r@.len() == leases@.len(),
        r@[i] matches RksMessage::UpdateRoutes(id, routes) && id == leases@[i].node_id && (
        routes@.contains(route) <==> exists|k: int|
            0 <= k < leases@.len() && (#[trigger] leases@[k]).node_id@ != id@ && leads(
                leases@[k],
                route,
            )),
{
    lemma_routes_for(leases@[i].node_id@, leases@, leases@.len() as int, route);
    assert(is_update(r@[i], leases@, i));
}

} // verus!

//! The course of finding the address of a service: validation, registry and allocation.
use vstd::prelude::*;
use crate::network::address;
use crate::network::address::{Ipv4Addr, Ipv4Network};
use crate::network::service_ip;
use crate::network::service_ip::{
    assign_cluster_ip, check_record, validate_cluster_ip, Allocation, AllocationStep,
    ClusterIpStep, Reservation, ServiceIpAllocator, ServiceIpError, ServiceIpRecord,
};
use crate::protocol::service::ServiceSpec;
use crate::text;
use crate::text::concat2;

verus! {

/// How far the search has come. `spec` is the specification that is to have the address.
#[derive(Debug)]
pub enum ClusterIpFlow {
    /// The record of the address that the service asks for is read.
    LookingUp { spec: ServiceSpec, ip: Ipv4Addr },
    /// The address that the service asks for is reserved.
    Reserving { spec: ServiceSpec, ip: Ipv4Addr },
    /// An address of the allocation is reserved.
    Trying { spec: ServiceSpec, st: Allocation },
    /// The allocation waits after conflicts.
    Waiting { spec: ServiceSpec, st: Allocation },
    Ended,
}

/// What is to be done next.
#[derive(Debug)]
pub enum ClusterIpAction {
    LookUp(Ipv4Addr),
    Reserve(Ipv4Addr),
    /// Wait about this number of milliseconds.
    Wait(u64),
    Done(Result<ServiceSpec, String>),
}

/// What an action came to.
#[derive(Debug)]
pub enum ClusterIpEvent {
    LookedUp(Result<Option<ServiceIpRecord>, ServiceIpError>),
    Tried(Reservation),
    Waited,
}

/// Whether the flow waits for an event of that kind.
pub open spec fn awaits(al: ServiceIpAllocator, st: ClusterIpFlow, event: ClusterIpEvent) -> bool {
    match st {
        ClusterIpFlow::LookingUp { spec, ip } => event is LookedUp,
        ClusterIpFlow::Reserving { spec, ip } => event is Tried,
        ClusterIpFlow::Trying { spec, st } => event is Tried && service_ip::is_trying(al, st),
        ClusterIpFlow::Waiting { spec, st } => event is Waited && !st.probing,
        ClusterIpFlow::Ended => false,
    }
}

/// Whether the search ends and leaves the specification as it is.
pub open spec fn keeps(r: (ClusterIpFlow, ClusterIpAction), spec: ServiceSpec) -> bool {
    r.0 is Ended && r.1 == ClusterIpAction::Done(Ok::<ServiceSpec, String>(spec))
}

/// Whether the search ends with the error.
pub open spec fn fails(r: (ClusterIpFlow, ClusterIpAction), m: Seq<char>) -> bool {
    r.0 is Ended && (r.1 matches ClusterIpAction::Done(Err(t)) && t@ == m)
}

/// The specification with the address.
pub open spec fn has_address(before: ServiceSpec, after: ServiceSpec, ip: Ipv4Addr) -> bool {
    &&& after == (ServiceSpec { cluster_ip: after.cluster_ip, ..before })
    &&& text::opt_text(after.cluster_ip) == Some(address::ipv4_text(ip))
}

/// Whether the search ends with the address.
pub open spec fn gives(
    r: (ClusterIpFlow, ClusterIpAction),
    spec: ServiceSpec,
    ip: Ipv4Addr,
) -> bool {
    r.0 is Ended && (r.1 matches ClusterIpAction::Done(Ok(s)) && has_address(spec, s, ip))
}

/// What a step of the allocation, in which nothing is left to draw, means for the search.
pub open spec fn carries_out(
    spec: ServiceSpec,
    st: Allocation,
    step: AllocationStep,
    r: (ClusterIpFlow, ClusterIpAction),
) -> bool {
    match step {
        AllocationStep::Reserve(ip) => r.0 == (ClusterIpFlow::Trying { spec, st }) && r.1
            == ClusterIpAction::Reserve(ip),
        AllocationStep::Wait(ms) => r.0 == (ClusterIpFlow::Waiting { spec, st }) && r.1
            == ClusterIpAction::Wait(ms),
        AllocationStep::Allocated(ip) => gives(r, spec, ip),
        AllocationStep::Failed(_) => fails(r, "failed to allocate Service IP"@),
        AllocationStep::Draw => false,
        AllocationStep::Probe => false,
    }
}

/// What a step of the allocation means for the search, once what is random in it was drawn.
pub open spec fn advances(
    al: ServiceIpAllocator,
    spec: ServiceSpec,
    st: Allocation,
    step: AllocationStep,
    r: (ClusterIpFlow, ClusterIpAction),
) -> bool {
    exists|after: Allocation, settled: AllocationStep| #[trigger]
        service_ip::settles(al, st, step, after, settled) && carries_out(spec, after, settled, r)
}

/// How an allocation looks for addresses: at random, and one after the other after the last
/// attempt.
pub open spec fn look(al: ServiceIpAllocator, attempt: usize) -> AllocationStep {
    if attempt < al.max_retries {
        AllocationStep::Draw
    } else {
        AllocationStep::Probe
    }
}

/// What a new allocation starts with.
pub open spec fn is_first(st: Allocation) -> bool {
    st.attempt == 0 && st.queue@.len() == 0 && st.at == 0 && !st.probing
}

/// What the search begins with.
pub open spec fn begins(
    al: ServiceIpAllocator,
    cidr: Option<Ipv4Network>,
    spec: ServiceSpec,
    r: (ClusterIpFlow, ClusterIpAction),
) -> bool {
    exists|step: ClusterIpStep| #[trigger]
        service_ip::is_cluster_ip_step(spec, cidr, step) && match step {
            ClusterIpStep::Keep => keeps(r, spec),
            ClusterIpStep::Refuse(m) => fails(r, m@),
            ClusterIpStep::LookUp(ip) => r.0 == (ClusterIpFlow::LookingUp { spec, ip }) && r.1
                == ClusterIpAction::LookUp(ip),
            ClusterIpStep::Reserve(ip) => false,
            ClusterIpStep::Allocate => exists|st: Allocation|
                is_first(st) && #[trigger] advances(al, spec, st, look(al, 0), r),
        }
}

/// What follows an event. A record of the service itself is as good as a new reservation; one of
/// another service ends the search.
pub open spec fn follows(
    al: ServiceIpAllocator,
    namespace: Seq<char>,
    name: Seq<char>,
    st: ClusterIpFlow,
    event: ClusterIpEvent,
    r: (ClusterIpFlow, ClusterIpAction),
) -> bool {
    match (st, event) {
        (ClusterIpFlow::LookingUp { spec, ip }, ClusterIpEvent::LookedUp(found)) => match found {
            Err(e) => fails(r, service_ip::error_text(e)),
            Ok(None) => r.0 == (ClusterIpFlow::Reserving { spec, ip }) && r.1
                == ClusterIpAction::Reserve(ip),
            Ok(Some(record)) => if record.service_namespace@ == namespace && record.service_name@
                == name {
                keeps(r, spec)
            } else {
                fails(
                    r,
                    "cluster_ip "@ + address::ipv4_text(ip)
                        + " is already allocated to another service ("@ + record.service_namespace@
                        + "/"@ + record.service_name@ + ")"@,
                )
            },
        },
        (ClusterIpFlow::Reserving { spec, ip }, ClusterIpEvent::Tried(outcome)) => {
            if outcome is Reserved {
                keeps(r, spec)
            } else {
                fails(r, "failed to reserve cluster_ip "@ + address::ipv4_text(ip))
            }
        },
        (ClusterIpFlow::Trying { spec, st }, ClusterIpEvent::Tried(outcome)) => {
            exists|after: Allocation, step: AllocationStep| #[trigger]
                service_ip::goes_on_after(al, st, outcome, after, step) && carries_out(
                    spec,
                    after,
                    step,
                    r,
                )
        },
        (ClusterIpFlow::Waiting { spec, st }, ClusterIpEvent::Waited) => advances(
            al,
            spec,
            st,
            look(al, st.attempt),
            r,
        ),
        _ => false,
    }
}

fn carry_out(spec: ServiceSpec, st: Allocation, step: AllocationStep) -> (r: (
    ClusterIpFlow,
    ClusterIpAction,
))
    requires
        !(step is Draw),
        !(step is Probe),
    ensures
        carries_out(spec, st, step, r),
{
    match step {
        AllocationStep::Reserve(ip) => (
            ClusterIpFlow::Trying { spec, st },
            ClusterIpAction::Reserve(ip),
        ),
        AllocationStep::Wait(ms) => (
            ClusterIpFlow::Waiting { spec, st },
            ClusterIpAction::Wait(ms),
        ),
        AllocationStep::Allocated(ip) => {
            let mut spec = spec;
            assign_cluster_ip(&mut spec, ip);
            (ClusterIpFlow::Ended, ClusterIpAction::Done(Ok(spec)))
        },
        _ => (
            ClusterIpFlow::Ended,
            ClusterIpAction::Done(Err("failed to allocate Service IP".to_owned())),
        ),
    }
}

fn advance(al: &ServiceIpAllocator, spec: ServiceSpec, st: Allocation, step: AllocationStep) -> (r:
    (ClusterIpFlow, ClusterIpAction))
    requires
        service_ip::searchable(al.service_cidr),
        step is Draw || step is Probe,
    ensures
        advances(*al, spec, st, step, r),
{
    let ghost g = step;
    let ghost before = st;
    let mut st = st;
    let settled = al.settle(&mut st, step);
    let ghost after = st;
    let ghost s = settled;
    assert(service_ip::settles(*al, before, g, after, s));
    carry_out(spec, st, settled)
}

/// Validates and processes a Service spec for ClusterIP assignment: begins the search.
pub fn validate_and_allocate_cluster_ip(
    spec: ServiceSpec,
    service_cidr: Option<Ipv4Network>,
    allocator: &ServiceIpAllocator,
) -> (r: (ClusterIpFlow, ClusterIpAction))
    requires
        service_cidr matches Some(n) ==> n.wf(),
        service_ip::searchable(allocator.service_cidr),
    ensures
        begins(*allocator, service_cidr, spec, r),
{
    let step = validate_cluster_ip(&spec, service_cidr);
    let ghost g = step;
    assert(service_ip::is_cluster_ip_step(spec, service_cidr, g));
    match step {
        ClusterIpStep::Keep => (ClusterIpFlow::Ended, ClusterIpAction::Done(Ok(spec))),
        ClusterIpStep::Refuse(m) => (ClusterIpFlow::Ended, ClusterIpAction::Done(Err(m))),
        ClusterIpStep::LookUp(ip) => (
            ClusterIpFlow::LookingUp { spec, ip },
            ClusterIpAction::LookUp(ip),
        ),
        _ => {
            let (st, first) = allocator.allocate();
            let ghost st0 = st;
            let ghost spec0 = spec;
            let r = advance(allocator, spec, st, first);
            assert(is_first(st0) && advances(*allocator, spec0, st0, first, r));
            r
        },
    }
}

/// What follows an event in the search for the address of a service.
pub fn cluster_ip_step(
    allocator: &ServiceIpAllocator,
    service_namespace: &str,
    service_name: &str,
    st: ClusterIpFlow,
    event: ClusterIpEvent,
) -> (r: (ClusterIpFlow, ClusterIpAction))
    requires
        awaits(*allocator, st, event),
        service_ip::searchable(allocator.service_cidr),
    ensures
        follows(*allocator, service_namespace@, service_name@, st, event, r),
{
    match (st, event) {
        (ClusterIpFlow::LookingUp { spec, ip }, ClusterIpEvent::LookedUp(found)) => match found {
            Err(e) => (ClusterIpFlow::Ended, ClusterIpAction::Done(Err(e.message()))),
            Ok(record) => match check_record(service_namespace, service_name, ip, &record) {
                ClusterIpStep::Reserve(ip) => (
                    ClusterIpFlow::Reserving { spec, ip },
                    ClusterIpAction::Reserve(ip),
                ),
                ClusterIpStep::Refuse(m) => (
                    ClusterIpFlow::Ended,
                    ClusterIpAction::Done(Err(m)),
                ),
                _ => (ClusterIpFlow::Ended, ClusterIpAction::Done(Ok(spec))),
            },
        },
        (ClusterIpFlow::Reserving { spec, ip }, ClusterIpEvent::Tried(outcome)) => {
            match outcome {
                Reservation::Reserved => (
                    ClusterIpFlow::Ended,
                    ClusterIpAction::Done(Ok(spec)),
                ),
                _ => (
                    ClusterIpFlow::Ended,
                    ClusterIpAction::Done(
                        Err(concat2("failed to reserve cluster_ip ", ip.to_text().as_str())),
                    ),
                ),
            }
        },
        (ClusterIpFlow::Trying { spec, st }, ClusterIpEvent::Tried(outcome)) => {
            let ghost before = st;
            let ghost o = outcome;
            let mut st = st;
            let step = allocator.reserved(&mut st, outcome);
            let ghost after = st;
            let ghost s = step;
            assert(service_ip::goes_on_after(*allocator, before, o, after, s));
            carry_out(spec, st, step)
        },
        (ClusterIpFlow::Waiting { spec, st }, _) => {
            let step = allocator.waited(&st);
            advance(allocator, spec, st, step)
        },
        _ => (ClusterIpFlow::Ended, ClusterIpAction::Done(Err(String::new()))),
    }
}

/// Whether a search is one that came of the steps above: what it tries is usable.
pub open spec fn sound(al: ServiceIpAllocator, st: ClusterIpFlow) -> bool {
    match st {
        ClusterIpFlow::Trying { spec, st } => service_ip::is_trying(al, st)
            && service_ip::all_usable(al.service_cidr, st.queue@),
        ClusterIpFlow::Waiting { spec, st } => !st.probing && st.attempt <= al.max_retries,
        _ => true,
    }
}

proof fn lemma_advances_soundly(
    al: ServiceIpAllocator,
    spec: ServiceSpec,
    st: Allocation,
    r: (ClusterIpFlow, ClusterIpAction),
)
    requires
        service_ip::searchable(al.service_cidr),
        st.attempt <= al.max_retries,
        !st.probing,
        advances(
            al,
            spec,
            st,
            look(al, st.attempt),
            r,
        ),
    ensures
        sound(al, r.0),
        r.1 matches ClusterIpAction::Reserve(ip) ==> service_ip::usable(al.service_cidr, ip),
        r.0 is Ended ==> r.1 matches ClusterIpAction::Done(Err(_)),
        r.0 is Ended || (r.0 matches ClusterIpFlow::Trying { spec: s, st: t } && s == spec
            && t.attempt == st.attempt && t.probing == (st.attempt == al.max_retries)),
{
    let n = al.service_cidr;
    let draws = st.attempt < al.max_retries;
    let step = look(al, st.attempt);
    let (after, settled) = choose|after: Allocation, settled: AllocationStep| #[trigger]
        service_ip::settles(al, st, step, after, settled) && carries_out(spec, after, settled, r);
    if draws {
        let c = choose|c: Result<Vec<Ipv4Addr>, String>|
            service_ip::can_be_candidates(n, c) && #[trigger] service_ip::goes_on_with(
                al,
                st,
                c,
                after,
                settled,
            );
        if let Ok(v) = c {
            let drawn = choose|drawn: Seq<u32>|
                service_ip::can_be_drawn(n, drawn) && v@ == #[trigger] service_ip::picked(n, drawn);
            service_ip::law_candidates_are_usable(n, drawn);
        }
    } else {
        let order = choose|order: Vec<Ipv4Addr>|
            service_ip::can_be_probed(n, order@) && #[trigger] service_ip::goes_on_probing(
                al,
                st,
                order,
                after,
                settled,
            );
        if service_ip::has_hosts(n) {
            let start = choose|start: int|
                0 <= start < service_ip::probe_limit(n) && order@ == #[trigger] service_ip::probe_order(
                    n,
                    start,
                );
            service_ip::law_probed_addresses_are_usable(n, start);
        }
    }
}

/// A search that begins is sound, and the first address that it tries of its own is usable.
pub proof fn law_search_begins_soundly(
    al: ServiceIpAllocator,
    cidr: Option<Ipv4Network>,
    spec: ServiceSpec,
    r: (ClusterIpFlow, ClusterIpAction),
)
    requires
        service_ip::searchable(al.service_cidr),
        begins(al, cidr, spec, r),
    ensures
        sound(al, r.0),
        r.1 matches ClusterIpAction::Reserve(ip) ==> service_ip::usable(al.service_cidr, ip),
{
    let step = choose|step: ClusterIpStep| #[trigger]
        service_ip::is_cluster_ip_step(spec, cidr, step) && match step {
            ClusterIpStep::Keep => keeps(r, spec),
            ClusterIpStep::Refuse(m) => fails(r, m@),
            ClusterIpStep::LookUp(ip) => r.0 == (ClusterIpFlow::LookingUp { spec, ip }) && r.1
                == ClusterIpAction::LookUp(ip),
            ClusterIpStep::Reserve(ip) => false,
            ClusterIpStep::Allocate => exists|st: Allocation|
                is_first(st) && #[trigger] advances(al, spec, st, look(al, 0), r),
        };
    if step is Allocate {
        let st = choose|st: Allocation|
            is_first(st) && #[trigger] advances(al, spec, st, look(al, 0), r);
        lemma_advances_soundly(al, spec, st, r);
    }
}

/// A search stays sound: it waits for what its action comes to, and every address that an
/// allocation tries is usable.
pub proof fn law_search_tries_usable_addresses(
    al: ServiceIpAllocator,
    namespace: Seq<char>,
    name: Seq<char>,
    st: ClusterIpFlow,
    event: ClusterIpEvent,
    r: (ClusterIpFlow, ClusterIpAction),
)
    requires
        service_ip::searchable(al.service_cidr),
        sound(al, st),
        awaits(al, st, event),
        follows(al, namespace, name, st, event, r),
    ensures
        sound(al, r.0),
        st is Trying || st is Waiting ==> (r.1 matches ClusterIpAction::Reserve(ip)
            ==> service_ip::usable(al.service_cidr, ip)),
{
    if let ClusterIpFlow::Waiting { spec, st } = st {
        lemma_advances_soundly(al, spec, st, r);
    }
}

/// An allocation gives a service the address that was reserved for it last, and only once it is
/// reserved.
pub proof fn law_given_address_is_reserved(
    al: ServiceIpAllocator,
    namespace: Seq<char>,
    name: Seq<char>,
    spec: ServiceSpec,
    st: Allocation,
    outcome: Reservation,
    r: (ClusterIpFlow, ClusterIpAction),
)
    requires
        service_ip::is_trying(al, st),
        follows(
            al,
            namespace,
            name,
            ClusterIpFlow::Trying { spec, st },
            ClusterIpEvent::Tried(outcome),
            r,
        ),
    ensures
        outcome is Reserved ==> gives(r, spec, st.queue@[st.at as int]),
        (r.1 matches ClusterIpAction::Done(Ok(_))) ==> outcome is Reserved,
{
}

/// The number of times, at most, that a search begins a queue of addresses or a wait.
pub open spec fn rounds_left(al: ServiceIpAllocator, st: ClusterIpFlow) -> int {
    match st {
        ClusterIpFlow::Trying { spec, st } => if st.probing {
            1
        } else {
            2 * (al.max_retries - st.attempt) + 1
        },
        ClusterIpFlow::Waiting { spec, st } => 2 * (al.max_retries - st.attempt) + 2,
        _ => 0,
    }
}

/// The number of events, at most, that a search waits for in its round.
pub open spec fn events_left(st: ClusterIpFlow) -> int {
    match st {
        ClusterIpFlow::LookingUp { spec, ip } => 2,
        ClusterIpFlow::Reserving { spec, ip } => 1,
        ClusterIpFlow::Trying { spec, st } => st.queue@.len() - st.at,
        _ => 0,
    }
}

/// A search comes to its end: with each event it has fewer rounds left, or as many and fewer
/// events in the round.
pub proof fn law_search_ends(
    al: ServiceIpAllocator,
    namespace: Seq<char>,
    name: Seq<char>,
    st: ClusterIpFlow,
    event: ClusterIpEvent,
    r: (ClusterIpFlow, ClusterIpAction),
)
    requires
        service_ip::searchable(al.service_cidr),
        sound(al, st),
        awaits(al, st, event),
        follows(al, namespace, name, st, event, r),
    ensures
        rounds_left(al, r.0) >= 0,
        events_left(r.0) >= 0,
        rounds_left(al, r.0) < rounds_left(al, st) || (rounds_left(al, r.0) == rounds_left(al, st)
            && events_left(r.0) < events_left(st)),
        r.0 is Ended <==> r.1 is Done,
{
    law_search_tries_usable_addresses(al, namespace, name, st, event, r);
    match (st, event) {
        (ClusterIpFlow::Waiting { spec, st }, _) => {
            lemma_advances_soundly(al, spec, st, r);
        },
        (ClusterIpFlow::Trying { spec, st: t }, ClusterIpEvent::Tried(outcome)) => {
            let (after, step) = choose|after: Allocation, step: AllocationStep| #[trigger]
                service_ip::goes_on_after(al, t, outcome, after, step) && carries_out(
                    spec,
                    after,
                    step,
                    r,
                );
            assert(t.queue.len() == t.queue@.len());
        },
        _ => {},
    }
}

/// What the search for an address comes to, event by event. A given address that no one has is
/// reserved, and kept when it was; one that the service has already is kept; one of another
/// service ends the search with an error. A drawn address that was reserved is written into the
/// service, and nothing else of the service changes.
pub proof fn law_service_gets_the_address_that_was_reserved(
    al: ServiceIpAllocator,
    namespace: &str,
    name: &str,
    st: ClusterIpFlow,
    event: ClusterIpEvent,
    r: (ClusterIpFlow, ClusterIpAction),
)
    requires
        call_ensures(cluster_ip_step, (&al, namespace, name, st, event), r),
        awaits(al, st, event),
        st matches ClusterIpFlow::Trying { spec, st: a } ==> a.queue@.len() <= usize::MAX,
    ensures
        st matches ClusterIpFlow::LookingUp { spec, ip } ==> {
            let found = event->LookedUp_0;
            &&& found is Err ==> r.1 is Done && r.1->Done_0 is Err
            &&& found matches Ok(None) ==> r.1 == ClusterIpAction::Reserve(ip) && r.0 == (
            ClusterIpFlow::Reserving { spec, ip })
            &&& found matches Ok(Some(w)) ==> r.1 is Done && (if w.service_namespace@ == namespace@
                && w.service_name@ == name@ {
                r.1->Done_0 == Ok::<ServiceSpec, String>(spec)
            } else {
                r.1->Done_0 is Err
            })
        },
        st matches ClusterIpFlow::Reserving { spec, ip } ==> r.1 is Done && (if event->Tried_0 is Reserved {
            r.1->Done_0 == Ok::<ServiceSpec, String>(spec)
        } else {
            r.1->Done_0 is Err
        }),
        st matches ClusterIpFlow::Trying { spec, st: a } ==> (event->Tried_0 is Reserved ==> r.1 is Done
            && (r.1->Done_0 matches Ok(s) && (s.cluster_ip matches Some(t) && t@
            == address::ipv4_text(a.queue@[a.at as int])) && s.service_type == spec.service_type
            && s.selector == spec.selector && s.ports == spec.ports)),
        st matches ClusterIpFlow::Trying { spec, st: a } ==> (event->Tried_0 is AlreadyAllocated && a.at
            + 1 < a.queue@.len() ==> r.1 == ClusterIpAction::Reserve(a.queue@[a.at + 1])),
        st matches ClusterIpFlow::Trying { spec, st: a } ==> (event->Tried_0 is Failed ==> r.1 is Done
            && r.1->Done_0 is Err),
{
}

} // verus!

//! The course of creating and updating a service.
use vstd::prelude::*;
use crate::network::service_ip;
use crate::node::dispatch;
use crate::node::dispatch::{
    allocation_failed, desired_service_spec, reallocation_failed, service_created,
    service_to_store, service_upserted, should_release, update_service, StoredService,
};
use crate::protocol::message;
use crate::protocol::message::RksMessage;
use crate::protocol::service::{ServiceSpec, ServiceTask};
use crate::text;

verus! {

/// How far a creation or an update has come. `upsert` tells an update that found nothing to
/// update, and so creates the service, from a creation.
#[derive(Debug)]
pub enum ServiceFlow {
    /// An address is looked for, which the service is to have.
    Allocating { svc: ServiceTask, upsert: bool },
    /// The service is stored, unless one of its name is.
    Inserting { svc: ServiceTask, upsert: bool },
    /// Another request stored a service of the name first, which is read.
    Comparing { svc: ServiceTask, upsert: bool },
    /// The address that was found for the service is given back.
    Releasing { svc: ServiceTask, upsert: bool },
    /// The service to update is read.
    Reading { svc: ServiceTask },
    /// An address is looked for, which the updated service is to have.
    Reallocating { name: String, stored: ServiceTask, desired: ServiceSpec },
    /// The updated service is stored under the name.
    Writing { name: String, svc: ServiceTask },
    /// The user has the reply.
    Ended,
}

/// What is to be done next, with what stands in the flow.
#[derive(Debug)]
pub enum ServiceAction {
    Allocate,
    Insert,
    Compare,
    Release,
    Read,
    Write,
    Reply(RksMessage),
}

/// What an action came to.
#[derive(Debug)]
pub enum ServiceEvent {
    /// The specification with its address, or why there is none.
    Allocated(Result<ServiceSpec, String>),
    /// Whether the service was stored.
    Inserted(bool),
    Compared(StoredService),
    /// The address was given back, or could not be.
    Released,
    Found(Option<ServiceTask>),
    Written,
}

/// Whether a stored service can be updated: a changed specification counts as a new generation.
pub open spec fn can_update(stored: ServiceTask, spec: ServiceSpec) -> bool {
    stored.spec.deep_view() != spec.deep_view() ==> dispatch::can_count(stored.metadata)
}

/// Whether the flow waits for an event of that kind. A stored service that is to be updated has to
/// be one that can be.
pub open spec fn awaits(st: ServiceFlow, event: ServiceEvent, allocator: bool) -> bool {
    match st {
        ServiceFlow::Allocating { svc, upsert } => event is Allocated,
        ServiceFlow::Inserting { svc, upsert } => event is Inserted,
        ServiceFlow::Comparing { svc, upsert } => event is Compared,
        ServiceFlow::Releasing { svc, upsert } => event is Released,
        ServiceFlow::Reading { svc } => event matches ServiceEvent::Found(found) && (
        found matches Some(stored) ==> !allocator ==> can_update(
            stored,
            dispatch::with_ip(svc.spec, desired_ip(stored.spec, svc.spec)),
        )),
        ServiceFlow::Reallocating { name, stored, desired } => event matches ServiceEvent::Allocated(
            outcome,
        ) && (outcome matches Ok(spec) ==> can_update(stored, spec)),
        ServiceFlow::Writing { name, svc } => event is Written,
        ServiceFlow::Ended => false,
    }
}

/// The service with a specification and a time of creation.
pub open spec fn completed(svc: ServiceTask, spec: ServiceSpec, now: i128) -> ServiceTask {
    ServiceTask { spec, metadata: dispatch::created_at(svc.metadata, now), ..svc }
}

/// What a creation starts with. Without an allocator the service keeps the address it has.
pub open spec fn starts(
    svc: ServiceTask,
    upsert: bool,
    allocator: bool,
    now: i128,
    r: (ServiceFlow, ServiceAction),
) -> bool {
    if allocator {
        r.0 == (ServiceFlow::Allocating { svc, upsert }) && r.1 is Allocate
    } else {
        r.0 == (ServiceFlow::Inserting { svc: completed(svc, svc.spec, now), upsert }) && r.1
            is Insert
    }
}

/// Whether the flow ends with an error for the user.
pub open spec fn ends_with(r: (ServiceFlow, ServiceAction), error: Seq<char>) -> bool {
    r.0 is Ended && (r.1 matches ServiceAction::Reply(m) && message::reports(m, error))
}

/// Whether the flow ends with an acknowledgement.
pub open spec fn acknowledges(r: (ServiceFlow, ServiceAction)) -> bool {
    r.0 is Ended && r.1 == ServiceAction::Reply(RksMessage::Ack)
}

/// What the user is told when another request stored a service of the name first.
pub open spec fn conflict(name: Seq<char>, upsert: bool) -> Seq<char> {
    if upsert {
        "Service "@ + name + " was created concurrently, please retry apply"@
    } else {
        "service \""@ + name + "\" already exists"@
    }
}

/// Whether the address that was found for the service is another one than the stored service has.
pub open spec fn holds_another_address(existing: StoredService, svc: ServiceTask) -> bool {
    match existing {
        StoredService::Found(e) => text::opt_text(e.spec.cluster_ip) != text::opt_text(
            svc.spec.cluster_ip,
        ),
        StoredService::Unknown => true,
    }
}

/// The address that an update asks for: the stored one where it names none.
pub open spec fn desired_ip(stored: ServiceSpec, incoming: ServiceSpec) -> Option<String> {
    if service_ip::trimmed_ip(incoming.cluster_ip).len() == 0 {
        stored.cluster_ip
    } else {
        incoming.cluster_ip
    }
}

/// What follows an event.
pub open spec fn follows(
    st: ServiceFlow,
    event: ServiceEvent,
    allocator: bool,
    now: i128,
    r: (ServiceFlow, ServiceAction),
) -> bool {
    match (st, event) {
        (ServiceFlow::Allocating { svc, upsert }, ServiceEvent::Allocated(outcome)) => {
            match outcome {
                Ok(spec) => r.0 == (ServiceFlow::Inserting {
                    svc: completed(svc, spec, now),
                    upsert,
                }) && r.1 is Insert,
                Err(e) => ends_with(r, "ClusterIP allocation failed: "@ + e@),
            }
        },
        (ServiceFlow::Inserting { svc, upsert }, ServiceEvent::Inserted(created)) => {
            if created {
                acknowledges(r)
            } else if allocator {
                r.0 == (ServiceFlow::Comparing { svc, upsert }) && r.1 is Compare
            } else {
                ends_with(r, conflict(svc.metadata.name@, upsert))
            }
        },
        (ServiceFlow::Comparing { svc, upsert }, ServiceEvent::Compared(existing)) => {
            if holds_another_address(existing, svc) {
                r.0 == (ServiceFlow::Releasing { svc, upsert }) && r.1 is Release
            } else {
                ends_with(r, conflict(svc.metadata.name@, upsert))
            }
        },
        (ServiceFlow::Releasing { svc, upsert }, ServiceEvent::Released) => ends_with(
            r,
            conflict(svc.metadata.name@, upsert),
        ),
        (ServiceFlow::Reading { svc }, ServiceEvent::Found(found)) => match found {
            None => starts(svc, true, allocator, now, r),
            Some(stored) => {
                let desired = dispatch::with_ip(svc.spec, desired_ip(stored.spec, svc.spec));
                if service_ip::changes_cluster_ip(stored.spec, desired) {
                    ends_with(
                        r,
                        "Service update rejected: "@ + ("cluster_ip for service "@
                            + svc.metadata.name@ + " cannot be modified: old="@
                            + service_ip::debug_text(text::opt_text(stored.spec.cluster_ip))
                            + ", new="@ + service_ip::debug_text(
                            text::opt_text(desired.cluster_ip),
                        )),
                    )
                } else if allocator {
                    r.0 == (ServiceFlow::Reallocating { name: svc.metadata.name, stored, desired })
                        && r.1 is Allocate
                } else {
                    r.0 == (ServiceFlow::Writing {
                        name: svc.metadata.name,
                        svc: dispatch::updated_service(stored, desired),
                    }) && r.1 is Write
                }
            },
        },
        (ServiceFlow::Reallocating { name, stored, desired }, ServiceEvent::Allocated(outcome)) => {
            match outcome {
                Ok(spec) => r.0 == (ServiceFlow::Writing {
                    name,
                    svc: dispatch::updated_service(stored, spec),
                }) && r.1 is Write,
                Err(e) => ends_with(r, "ClusterIP validation/allocation failed: "@ + e@),
            }
        },
        (ServiceFlow::Writing { name, svc }, ServiceEvent::Written) => acknowledges(r),
        _ => false,
    }
}

fn start(svc: ServiceTask, upsert: bool, allocator: bool, now: i128) -> (r: (
    ServiceFlow,
    ServiceAction,
))
    ensures
        starts(svc, upsert, allocator, now, r),
{
    if allocator {
        (ServiceFlow::Allocating { svc, upsert }, ServiceAction::Allocate)
    } else {
        (
            ServiceFlow::Inserting { svc: service_to_store(svc, now), upsert },
            ServiceAction::Insert,
        )
    }
}

/// Starts to create a service whose specification is valid.
pub fn create_service(svc: ServiceTask, allocator: bool, now: i128) -> (r: (
    ServiceFlow,
    ServiceAction,
))
    ensures
        starts(svc, false, allocator, now, r),
{
    start(svc, false, allocator, now)
}

/// Starts to update a service with one whose specification is valid.
pub fn apply_service(svc: ServiceTask) -> (r: (ServiceFlow, ServiceAction))
    ensures
        r.0 == (ServiceFlow::Reading { svc }) && r.1 is Read,
{
    (ServiceFlow::Reading { svc }, ServiceAction::Read)
}

fn lost(svc: &ServiceTask, upsert: bool) -> (r: (ServiceFlow, ServiceAction))
    ensures
        ends_with(r, conflict(svc.metadata.name@, upsert)),
{
    let name = svc.metadata.name.as_str();
    let m = if upsert {
        service_upserted(name, false)
    } else {
        service_created(name, false)
    };
    (ServiceFlow::Ended, ServiceAction::Reply(m))
}

/// What follows an event in the course of creating or updating a service. `allocator` says
/// whether addresses are handed out.
pub fn service_step(st: ServiceFlow, event: ServiceEvent, allocator: bool, now: i128) -> (r: (
    ServiceFlow,
    ServiceAction,
))
    requires
        awaits(st, event, allocator),
    ensures
        follows(st, event, allocator, now, r),
{
    let ended = ServiceFlow::Ended;
    match (st, event) {
        (ServiceFlow::Allocating { svc, upsert }, ServiceEvent::Allocated(outcome)) => {
            match outcome {
                Ok(spec) => {
                    let svc = service_to_store(ServiceTask { spec, ..svc }, now);
                    (ServiceFlow::Inserting { svc, upsert }, ServiceAction::Insert)
                },
                Err(e) => (ended, ServiceAction::Reply(allocation_failed(e.as_str()))),
            }
        },
        (ServiceFlow::Inserting { svc, upsert }, ServiceEvent::Inserted(created)) => {
            if created {
                (ended, ServiceAction::Reply(RksMessage::Ack))
            } else if allocator {
                (ServiceFlow::Comparing { svc, upsert }, ServiceAction::Compare)
            } else {
                lost(&svc, upsert)
            }
        },
        (ServiceFlow::Comparing { svc, upsert }, ServiceEvent::Compared(existing)) => {
            if should_release(&existing, &svc) {
                (ServiceFlow::Releasing { svc, upsert }, ServiceAction::Release)
            } else {
                lost(&svc, upsert)
            }
        },
        (ServiceFlow::Releasing { svc, upsert }, _) => lost(&svc, upsert),
        (ServiceFlow::Reading { svc }, ServiceEvent::Found(found)) => match found {
            None => start(svc, true, allocator, now),
            Some(stored) => {
                let name = svc.metadata.name;
                match desired_service_spec(name.as_str(), &stored.spec, svc.spec) {
                    Err(m) => (ended, ServiceAction::Reply(m)),
                    Ok(desired) => if allocator {
                        (
                            ServiceFlow::Reallocating { name, stored, desired },
                            ServiceAction::Allocate,
                        )
                    } else {
                        (
                            ServiceFlow::Writing { name, svc: update_service(stored, desired) },
                            ServiceAction::Write,
                        )
                    },
                }
            },
        },
        (ServiceFlow::Reallocating { name, stored, desired: _ }, ServiceEvent::Allocated(outcome)) => {
            match outcome {
                Ok(spec) => (
                    ServiceFlow::Writing { name, svc: update_service(stored, spec) },
                    ServiceAction::Write,
                ),
                Err(e) => (ended, ServiceAction::Reply(reallocation_failed(e.as_str()))),
            }
        },
        _ => (ended, ServiceAction::Reply(RksMessage::Ack)),
    }
}

/// Whether the address of a deleted service is awaited to become free: addresses are handed out,
/// and the service could be read before.
pub fn awaits_release(allocator: bool, existing: &StoredService) -> (r: bool)
    ensures
        r == (allocator && *existing is Found),
{
    match existing {
        StoredService::Found(_) => allocator,
        StoredService::Unknown => false,
    }
}

/// The number of events that a flow waits for at most.
pub open spec fn events_left(st: ServiceFlow) -> nat {
    match st {
        ServiceFlow::Reading { svc } => 5,
        ServiceFlow::Allocating { svc, upsert } => 4,
        ServiceFlow::Inserting { svc, upsert } => 3,
        ServiceFlow::Comparing { svc, upsert } => 2,
        ServiceFlow::Reallocating { name, stored, desired } => 2,
        ServiceFlow::Releasing { svc, upsert } => 1,
        ServiceFlow::Writing { name, svc } => 1,
        ServiceFlow::Ended => 0,
    }
}

/// A creation or an update comes to its end, and the user gets one reply, at the end.
pub proof fn law_service_flow_ends_with_one_reply(
    st: ServiceFlow,
    event: ServiceEvent,
    allocator: bool,
    now: i128,
    r: (ServiceFlow, ServiceAction),
)
    requires
        awaits(st, event, allocator),
        follows(st, event, allocator, now, r),
    ensures
        events_left(r.0) < events_left(st),
        r.0 is Ended <==> r.1 is Reply,
{
}

/// A creation that loses to another request gives its address back, unless the other service has
/// the same one, and the user is told of the conflict.
pub proof fn law_lost_creation_keeps_no_address(
    svc: ServiceTask,
    upsert: bool,
    existing: StoredService,
    now: i128,
    first: (ServiceFlow, ServiceAction),
    second: (ServiceFlow, ServiceAction),
)
    requires
        follows(
            ServiceFlow::Inserting { svc, upsert },
            ServiceEvent::Inserted(false),
            true,
            now,
            first,
        ),
        follows(first.0, ServiceEvent::Compared(existing), true, now, second),
    ensures
        second.1 is Release <==> holds_another_address(existing, svc),
        second.1 is Release ==> (second.0 matches ServiceFlow::Releasing { svc: s, upsert: u } && s
            == svc),
        !(second.1 is Release) ==> ends_with(second, conflict(svc.metadata.name@, upsert)),
{
}

/// An update that is not refused asks for no other address for a `ClusterIP` service than it has
/// already, and changes nothing else of what is stored before an address is found.
pub proof fn law_update_keeps_the_stored_address(
    svc: ServiceTask,
    stored: ServiceTask,
    now: i128,
    r: (ServiceFlow, ServiceAction),
)
    requires
        follows(
            ServiceFlow::Reading { svc },
            ServiceEvent::Found(Some(stored)),
            true,
            now,
            r,
        ),
        !(r.0 is Ended),
    ensures
        r.0 matches ServiceFlow::Reallocating { name, stored: s, desired } && s == stored
            && name == svc.metadata.name && !service_ip::changes_cluster_ip(stored.spec, desired),
{
}

/// Whether the flow ends with an error.
pub open spec fn ends_in_error(r: (ServiceFlow, ServiceAction)) -> bool {
    r.0 is Ended && (r.1 matches ServiceAction::Reply(m) && m is Error)
}

/// A new service gets an address first, where addresses are given, and is stored with the
/// specification that came of it. It is not stored when it gets none.
pub proof fn law_new_service_gets_an_address_first(
    svc: ServiceTask,
    upsert: bool,
    spec: ServiceSpec,
    e: String,
    allocator: bool,
    now: i128,
    a: (ServiceFlow, ServiceAction),
    b: (ServiceFlow, ServiceAction),
    c: (ServiceFlow, ServiceAction),
)
    requires
        call_ensures(create_service, (svc, allocator, now), a),
        call_ensures(
            service_step,
            (
                ServiceFlow::Allocating { svc, upsert },
                ServiceEvent::Allocated(Ok(spec)),
                allocator,
                now,
            ),
            b,
        ),
        call_ensures(
            service_step,
            (
                ServiceFlow::Allocating { svc, upsert },
                ServiceEvent::Allocated(Err(e)),
                allocator,
                now,
            ),
            c,
        ),
    ensures
        allocator ==> a.1 is Allocate && a.0 == (ServiceFlow::Allocating { svc, upsert: false }),
        !allocator ==> a.1 is Insert && (a.0 matches ServiceFlow::Inserting { svc: s, upsert: u }
            && s.spec == svc.spec && s.metadata.name == svc.metadata.name && !u),
        b.1 is Insert && (b.0 matches ServiceFlow::Inserting { svc: s, upsert: u } && s.spec == spec
            && s.metadata.name == svc.metadata.name && s.metadata.uid == svc.metadata.uid && u
            == upsert),
        ends_in_error(c),
{
}

/// A service that could not be stored gives its address back where another one is stored for it,
/// and the user is told. One that could be stored is acknowledged, and keeps its address.
pub proof fn law_lost_service_gives_its_address_back(
    svc: ServiceTask,
    upsert: bool,
    created: bool,
    existing: StoredService,
    allocator: bool,
    now: i128,
    a: (ServiceFlow, ServiceAction),
    b: (ServiceFlow, ServiceAction),
    c: (ServiceFlow, ServiceAction),
)
    requires
        call_ensures(
            service_step,
            (
                ServiceFlow::Inserting { svc, upsert },
                ServiceEvent::Inserted(created),
                allocator,
                now,
            ),
            a,
        ),
        call_ensures(
            service_step,
            (
                ServiceFlow::Comparing { svc, upsert },
                ServiceEvent::Compared(existing),
                allocator,
                now,
            ),
            b,
        ),
        call_ensures(
            service_step,
            (ServiceFlow::Releasing { svc, upsert }, ServiceEvent::Released, allocator, now),
            c,
        ),
    ensures
        created ==> a.0 is Ended && a.1 == ServiceAction::Reply(RksMessage::Ack),
        !created && allocator ==> a.1 is Compare && a.0 == (ServiceFlow::Comparing { svc, upsert }),
        !created && !allocator ==> ends_in_error(a),
        existing is Unknown ==> b.1 is Release,
        existing matches StoredService::Found(e) ==> (b.1 is Release <==> e.spec.cluster_ip.deep_view()
            != svc.spec.cluster_ip.deep_view()),
        !(b.1 is Release) ==> ends_in_error(b),
        ends_in_error(c),
{
    if let StoredService::Found(e) = existing {
        assert(text::opt_text(e.spec.cluster_ip) == e.spec.cluster_ip.deep_view());
        assert(text::opt_text(svc.spec.cluster_ip) == svc.spec.cluster_ip.deep_view());
    }
}

/// A written service is acknowledged, and one whose address is refused is not written.
pub proof fn law_update_is_written_with_its_address(
    name: String,
    stored: ServiceTask,
    desired: ServiceSpec,
    spec: ServiceSpec,
    e: String,
    allocator: bool,
    now: i128,
    svc: ServiceTask,
    a: (ServiceFlow, ServiceAction),
    b: (ServiceFlow, ServiceAction),
    c: (ServiceFlow, ServiceAction),
)
    requires
        call_ensures(
            service_step,
            (
                ServiceFlow::Reallocating { name, stored, desired },
                ServiceEvent::Allocated(Ok(spec)),
                allocator,
                now,
            ),
            a,
        ),
        call_ensures(
            service_step,
            (
                ServiceFlow::Reallocating { name, stored, desired },
                ServiceEvent::Allocated(Err(e)),
                allocator,
                now,
            ),
            b,
        ),
        call_ensures(
            service_step,
            (ServiceFlow::Writing { name, svc }, ServiceEvent::Written, allocator, now),
            c,
        ),
    ensures
        a.1 is Write && (a.0 matches ServiceFlow::Writing { name: n, svc: s } && n == name
            && s.spec.deep_view() == spec.deep_view() && s.metadata.uid == stored.metadata.uid
            && s.metadata.creation_timestamp == stored.metadata.creation_timestamp),
        ends_in_error(b),
        c.0 is Ended && c.1 == ServiceAction::Reply(RksMessage::Ack),
{
}

} // verus!

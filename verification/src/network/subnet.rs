//! What is passed on of the leases that a watch brings.
use vstd::prelude::*;
use crate::network::lease;
use crate::network::lease::{Event, EventType, LeaseWatchResult, LeaseWatcher};
use crate::protocol::value::Value;

verus! {

/// The changes that a result of a watch brings: its own, or those between the known leases and
/// its snapshot when it has none.
pub fn watch_leases(lw: &mut LeaseWatcher, wr: LeaseWatchResult) -> (batch: Vec<Event>)
    ensures
        ({
            let own = old(lw).own_lease.deep_view();
            let known = old(lw).leases.deep_view();
            let events = wr.events.deep_view();
            if wr.events@.len() > 0 {
                &&& batch.deep_view() == lease::reported(own, known, events, events.len() as int)
                &&& final(lw).leases.deep_view() == lease::known_after(
                    own,
                    known,
                    events,
                    events.len() as int,
                )
            } else {
                &&& batch.deep_view() == lease::snapshot_changes(
                    own,
                    known,
                    wr.snapshot.deep_view(),
                )
                &&& final(lw).leases.deep_view() == wr.snapshot.deep_view().filter(
                    lease::others(own),
                )
            }
        }),
        final(lw).own_lease == old(lw).own_lease,
{
    assert(wr.events.deep_view().len() == wr.events@.len());
    if wr.events.len() > 0 {
        lw.update(wr.events)
    } else {
        lw.reset(wr.snapshot)
    }
}

/// What a result of a watch of one lease brings: that its lease was added, its first change
/// when it has no lease, or nothing.
pub fn watch_lease(wr: LeaseWatchResult) -> (r: Option<Event>)
    ensures
        r.deep_view() == if wr.snapshot@.len() > 0 {
            Some(lease::event_of(EventType::Added, wr.snapshot@[0].deep_view()))
        } else if wr.events@.len() > 0 {
            Some(wr.events@[0].deep_view())
        } else {
            None
        },
{
    let mut events = wr.events;
    if wr.snapshot.len() > 0 {
        Some(Event { event_type: EventType::Added, lease: Some(wr.snapshot[0].copy()) })
    } else if events.len() > 0 {
        Some(events.remove(0))
    } else {
        None
    }
}

/// What a watch brings is followed: changes are taken over one by one, and a snapshot as a whole.
pub proof fn law_watch_follows_what_it_brings(
    lw: &mut LeaseWatcher,
    wr: LeaseWatchResult,
    batch: Vec<Event>,
    a: &mut LeaseWatcher,
    updated: Vec<Event>,
    b: &mut LeaseWatcher,
    reset: Vec<Event>,
)
    requires
        call_ensures(watch_leases, (lw, wr), batch),
        call_ensures(LeaseWatcher::update, (a, wr.events), updated),
        call_ensures(LeaseWatcher::reset, (b, wr.snapshot), reset),
        *old(a) == *old(lw),
        *old(b) == *old(lw),
    ensures
        wr.events@.len() > 0 ==> batch.deep_view() == updated.deep_view()
            && final(lw).leases.deep_view() == final(a).leases.deep_view(),
        wr.events@.len() == 0 ==> batch.deep_view() == reset.deep_view()
            && final(lw).leases.deep_view() == final(b).leases.deep_view(),
        final(lw).own_lease == old(lw).own_lease,
{
    assert(wr.events.deep_view().len() == wr.events@.len());
}

} // verus!

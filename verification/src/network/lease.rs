//! Subnet leases of nodes and how they change.
use vstd::prelude::*;
use crate::network::address::{Ipv4Addr, Ipv4Network, Ipv6Addr, Ipv6Network};
use crate::protocol::value::Value;
use crate::seqs;

verus! {

/// What a node says of itself when it leases a subnet.
#[derive(Debug)]
pub struct LeaseAttrs {
    pub public_ip: Ipv4Addr,
    pub public_ipv6: Option<Ipv6Addr>,
    pub backend_type: String,
    pub node_id: String,
}

/// A subnet that a node has leased.
#[derive(Debug)]
pub struct Lease {
    pub enable_ipv4: bool,
    pub enable_ipv6: bool,
    pub subnet: Ipv4Network,
    pub ipv6_subnet: Option<Ipv6Network>,
    pub attrs: LeaseAttrs,
}

#[derive(Debug, Clone, Copy, PartialEq, Eq, Structural)]
pub enum EventType {
    Added,
    Removed,
}

/// A change of a lease.
#[derive(Debug)]
pub struct Event {
    pub event_type: EventType,
    pub lease: Option<Lease>,
}

/// What a watch of leases brings: changes, or all leases.
#[derive(Debug)]
pub struct LeaseWatchResult {
    pub events: Vec<Event>,
    pub snapshot: Vec<Lease>,
}

/// Follows the leases of the other nodes.
#[derive(Debug)]
pub struct LeaseWatcher {
    /// Lease with subnet of the local node
    pub own_lease: Lease,
    /// Leases from other nodes
    pub leases: Vec<Lease>,
}

pub struct LeaseAttrsView {
    pub public_ip: Ipv4Addr,
    pub public_ipv6: Option<Ipv6Addr>,
    pub backend_type: Seq<char>,
    pub node_id: Seq<char>,
}

pub struct LeaseView {
    pub enable_ipv4: bool,
    pub enable_ipv6: bool,
    pub subnet: Ipv4Network,
    pub ipv6_subnet: Option<Ipv6Network>,
    pub attrs: LeaseAttrsView,
}

pub struct EventView {
    pub event_type: EventType,
    pub lease: Option<LeaseView>,
}

impl DeepView for LeaseAttrs {
    type V = LeaseAttrsView;

    open spec fn deep_view(&self) -> LeaseAttrsView {
        LeaseAttrsView {
            public_ip: self.public_ip,
            public_ipv6: self.public_ipv6,
            backend_type: self.backend_type@,
            node_id: self.node_id@,
        }
    }
}

impl DeepView for Lease {
    type V = LeaseView;

    open spec fn deep_view(&self) -> LeaseView {
        LeaseView {
            enable_ipv4: self.enable_ipv4,
            enable_ipv6: self.enable_ipv6,
            subnet: self.subnet,
            ipv6_subnet: self.ipv6_subnet,
            attrs: self.attrs.deep_view(),
        }
    }
}

impl DeepView for Event {
    type V = EventView;

    open spec fn deep_view(&self) -> EventView {
        EventView { event_type: self.event_type, lease: self.lease.deep_view() }
    }
}

fn same_v6(a: Option<Ipv6Network>, b: Option<Ipv6Network>) -> (r: bool)
    ensures
        r == (a == b),
{
    match (a, b) {
        (Some(x), Some(y)) => x == y,
        (None, None) => true,
        _ => false,
    }
}

impl Value for LeaseAttrs {
    fn same(&self, other: &Self) -> (r: bool) {
        self.public_ip == other.public_ip && self.backend_type.same(&other.backend_type)
            && self.node_id.same(&other.node_id) && match (self.public_ipv6, other.public_ipv6) {
            (Some(x), Some(y)) => x == y,
            (None, None) => true,
            _ => false,
        }
    }

    fn copy(&self) -> (r: Self) {
        LeaseAttrs {
            public_ip: self.public_ip,
            public_ipv6: self.public_ipv6,
            backend_type: self.backend_type.clone(),
            node_id: self.node_id.clone(),
        }
    }
}

impl Value for Lease {
    fn same(&self, other: &Self) -> (r: bool) {
        self.enable_ipv4 == other.enable_ipv4 && self.enable_ipv6 == other.enable_ipv6
            && self.subnet == other.subnet && same_v6(self.ipv6_subnet, other.ipv6_subnet)
            && self.attrs.same(&other.attrs)
    }

    fn copy(&self) -> (r: Self) {
        Lease {
            enable_ipv4: self.enable_ipv4,
            enable_ipv6: self.enable_ipv6,
            subnet: self.subnet,
            ipv6_subnet: self.ipv6_subnet,
            attrs: self.attrs.copy(),
        }
    }
}

/// Whether two leases are of one subnet, for the families that are enabled. Without any, the
/// IPv4 subnets are compared.
pub open spec fn one_subnet(v4: bool, v6: bool, a: LeaseView, b: LeaseView) -> bool {
    if v4 && v6 {
        a.subnet == b.subnet && a.ipv6_subnet == b.ipv6_subnet
    } else if v6 {
        a.ipv6_subnet == b.ipv6_subnet
    } else {
        a.subnet == b.subnet
    }
}

/// Whether a known lease is of the subnet of another, by the families of the known one.
pub open spec fn matches_known(known: LeaseView, l: LeaseView) -> bool {
    one_subnet(known.enable_ipv4, known.enable_ipv6, known, l)
}

/// Whether a lease is of the local node's own subnet, by the families of the lease.
pub open spec fn is_own(own: LeaseView, l: LeaseView) -> bool {
    one_subnet(l.enable_ipv4, l.enable_ipv6, own, l)
}

fn same_subnet(ipv4_enabled: bool, ipv6_enabled: bool, a: &Lease, b: &Lease) -> (r: bool)
    ensures
        r == one_subnet(ipv4_enabled, ipv6_enabled, a.deep_view(), b.deep_view()),
{
    match (ipv4_enabled, ipv6_enabled) {
        (true, false) => a.subnet == b.subnet,
        (false, true) => same_v6(a.ipv6_subnet, b.ipv6_subnet),
        (true, true) => a.subnet == b.subnet && same_v6(a.ipv6_subnet, b.ipv6_subnet),
        (false, false) => a.subnet == b.subnet,
    }
}

/// The leases of other nodes.
pub open spec fn others(own: LeaseView) -> spec_fn(LeaseView) -> bool {
    |l: LeaseView| !is_own(own, l)
}

/// Whether none of the leases is of the local node's own subnet.
pub open spec fn only_others(own: LeaseView, known: Seq<LeaseView>) -> bool {
    forall|i: int| 0 <= i < known.len() ==> !is_own(own, #[trigger] known[i])
}

pub open spec fn unmatched(l: LeaseView) -> spec_fn(LeaseView) -> bool {
    |known: LeaseView| !matches_known(known, l)
}

pub open spec fn event_of(t: EventType, l: LeaseView) -> EventView {
    EventView { event_type: t, lease: Some(l) }
}

/// The known leases that are of none of the first `n` new subnets, the own one aside.
pub open spec fn remaining(own: LeaseView, known: Seq<LeaseView>, new: Seq<LeaseView>, n: int) -> Seq<
    LeaseView,
>
    decreases n,
{
    if n <= 0 {
        known
    } else if is_own(own, new[n - 1]) {
        remaining(own, known, new, n - 1)
    } else {
        remaining(own, known, new, n - 1).filter(unmatched(new[n - 1]))
    }
}

/// Whether one of the leases is of the subnet.
pub open spec fn knows(known: Seq<LeaseView>, l: LeaseView) -> bool {
    exists|i: int| 0 <= i < known.len() && matches_known(#[trigger] known[i], l)
}

/// The additions that the first `n` new leases make.
pub open spec fn additions(own: LeaseView, known: Seq<LeaseView>, new: Seq<LeaseView>, n: int) -> Seq<
    EventView,
>
    decreases n,
{
    if n <= 0 {
        Seq::empty()
    } else {
        let before = additions(own, known, new, n - 1);
        if is_own(own, new[n - 1]) || knows(remaining(own, known, new, n - 1), new[n - 1]) {
            before
        } else {
            before.push(event_of(EventType::Added, new[n - 1]))
        }
    }
}

pub open spec fn removals(s: Seq<LeaseView>) -> Seq<EventView> {
    s.map_values(|l: LeaseView| event_of(EventType::Removed, l))
}

/// The changes between the known leases and a snapshot.
pub open spec fn snapshot_changes(own: LeaseView, known: Seq<LeaseView>, new: Seq<LeaseView>) -> Seq<
    EventView,
> {
    additions(own, known, new, new.len() as int) + removals(
        remaining(own, known, new, new.len() as int),
    )
}

/// The position of the first known lease, at or after `from`, of the subnet.
pub open spec fn position(known: Seq<LeaseView>, l: LeaseView, from: int) -> int
    decreases known.len() - from,
{
    if from < 0 || from >= known.len() {
        known.len() as int
    } else if matches_known(known[from], l) {
        from
    } else {
        position(known, l, from + 1)
    }
}

/// The known leases with one more, which takes the place of one of the same subnet.
pub open spec fn with_lease(known: Seq<LeaseView>, l: LeaseView) -> Seq<LeaseView> {
    let i = position(known, l, 0);
    if i < known.len() {
        known.update(i, l)
    } else {
        known.push(l)
    }
}

/// The known leases without the first of the subnet.
pub open spec fn without_lease(known: Seq<LeaseView>, l: LeaseView) -> Seq<LeaseView> {
    let i = position(known, l, 0);
    if i < known.len() {
        known.remove(i)
    } else {
        known
    }
}

/// What is reported as removed: the known lease of the subnet, or the one that was named.
pub open spec fn removed_lease(known: Seq<LeaseView>, l: LeaseView) -> LeaseView {
    let i = position(known, l, 0);
    if i < known.len() {
        known[i]
    } else {
        l
    }
}

/// The known leases after the first `n` changes.
pub open spec fn known_after(own: LeaseView, known: Seq<LeaseView>, events: Seq<EventView>, n: int) -> Seq<
    LeaseView,
>
    decreases n,
{
    if n <= 0 {
        known
    } else {
        let before = known_after(own, known, events, n - 1);
        match events[n - 1].lease {
            None => before,
            Some(l) => if is_own(own, l) {
                before
            } else {
                match events[n - 1].event_type {
                    EventType::Added => with_lease(before, l),
                    EventType::Removed => without_lease(before, l),
                }
            },
        }
    }
}

/// What is reported of the first `n` changes.
pub open spec fn reported(own: LeaseView, known: Seq<LeaseView>, events: Seq<EventView>, n: int) -> Seq<
    EventView,
>
    decreases n,
{
    if n <= 0 {
        Seq::empty()
    } else {
        let before = reported(own, known, events, n - 1);
        match events[n - 1].lease {
            None => before,
            Some(l) => if is_own(own, l) {
                before
            } else {
                match events[n - 1].event_type {
                    EventType::Added => before.push(event_of(EventType::Added, l)),
                    EventType::Removed => before.push(
                        event_of(
                            EventType::Removed,
                            removed_lease(known_after(own, known, events, n - 1), l),
                        ),
                    ),
                }
            },
        }
    }
}

fn find_known(known: &Vec<Lease>, l: &Lease) -> (r: usize)
    ensures
        r == position(known.deep_view(), l.deep_view(), 0),
        r <= known@.len(),
        r < known@.len() <==> knows(known.deep_view(), l.deep_view()),
{
    let ghost k = known.deep_view();
    let ghost lv = l.deep_view();
    assert(k.len() == known@.len());
    let mut i: usize = 0;
    while i < known.len()
        invariant
            i <= known@.len(),
            k == known.deep_view(),
            k.len() == known@.len(),
            lv == l.deep_view(),
            position(k, lv, 0) == position(k, lv, i as int),
            forall|j: int| 0 <= j < i ==> !matches_known(#[trigger] k[j], lv),
        decreases known@.len() - i,
    {
        assert(k[i as int] == known@[i as int].deep_view());
        if same_subnet(known[i].enable_ipv4, known[i].enable_ipv6, &known[i], l) {
            assert(matches_known(k[i as int], lv));
            return i;
        }
        i = i + 1;
    }
    i
}

/// Takes the leases of a subnet out of the list.
fn drop_matching(known: &mut Vec<Lease>, l: &Lease)
    ensures
        final(known).deep_view() == old(known).deep_view().filter(unmatched(l.deep_view())),
{
    let ghost before = known.deep_view();
    let ghost p = unmatched(l.deep_view());
    let ghost mut done: int = 0;
    let mut i: usize = 0;
    proof {
        seqs::lemma_filter_none(before, p);
        assert(before.take(0).filter(p) + before.skip(0) =~= before);
    }
    while i < known.len()
        invariant
            p == unmatched(l.deep_view()),
            0 <= done <= before.len(),
            i == before.take(done).filter(p).len(),
            known@.len() == i + before.len() - done,
            known.deep_view() == before.take(done).filter(p) + before.skip(done),
        decreases known@.len() - i,
    {
        let ghost k0 = known.deep_view();
        let ghost kept = before.take(done).filter(p);
        proof {
            seqs::lemma_filter_take(before, p, done);
            assert(k0.len() == known@.len());
            assert(known@[i as int].deep_view() == k0[i as int]);
            assert(k0[i as int] == before[done]);
        }
        if same_subnet(known[i].enable_ipv4, known[i].enable_ipv6, &known[i], l) {
            known.remove(i);
            assert(known.deep_view() =~= k0.remove(i as int));
            assert(known.deep_view() =~= kept + before.skip(done + 1));
        } else {
            i = i + 1;
            assert(k0 =~= kept.push(before[done]) + before.skip(done + 1));
        }
        proof {
            done = done + 1;
        }
    }
    assert(done == before.len());
    assert(before.take(done) =~= before);
    assert(known.deep_view() =~= before.filter(p));
}

impl LeaseWatcher {
    /// Takes a snapshot of all leases: what was added and what was removed. The leases of the
    /// other nodes are known from then on; the own one is passed over.
    pub fn reset(&mut self, new_leases: Vec<Lease>) -> (batch: Vec<Event>)
        ensures
            batch.deep_view() == snapshot_changes(
                old(self).own_lease.deep_view(),
                old(self).leases.deep_view(),
                new_leases.deep_view(),
            ),
            final(self).leases.deep_view() == new_leases.deep_view().filter(
                others(old(self).own_lease.deep_view()),
            ),
            final(self).own_lease == old(self).own_lease,
    {
        let ghost own = self.own_lease.deep_view();
        let ghost known = self.leases.deep_view();
        let ghost new = new_leases.deep_view();
        let mut batch: Vec<Event> = Vec::new();
        let mut kept: Vec<Lease> = Vec::new();
        let ghost p = others(own);
        proof {
            seqs::lemma_filter_none(new, p);
            assert(batch.deep_view() =~= additions(own, known, new, 0));
            assert(kept.deep_view() =~= new.take(0).filter(p));
        }
        for i in 0..new_leases.len()
            invariant
                p == others(own),
                kept.deep_view() == new.take(i as int).filter(p),
                own == self.own_lease.deep_view(),
                self.own_lease == old(self).own_lease,
                new == new_leases.deep_view(),
                new.len() == new_leases@.len(),
                self.leases.deep_view() == remaining(own, known, new, i as int),
                batch.deep_view() == additions(own, known, new, i as int),
        {
            let l: &Lease = &new_leases[i];
            assert(l.deep_view() == new[i as int]);
            proof {
                seqs::lemma_filter_take(new, p, i as int);
            }
            if !same_subnet(l.enable_ipv4, l.enable_ipv6, &self.own_lease, l) {
                let at = find_known(&self.leases, l);
                if at >= self.leases.len() {
                    let ghost b0 = batch.deep_view();
                    let ev = Event { event_type: EventType::Added, lease: Some(l.copy()) };
                    batch.push(ev);
                    assert(batch.deep_view() =~= b0.push(event_of(EventType::Added, new[i as int])));
                }
                drop_matching(&mut self.leases, l);
                let ghost k0 = kept.deep_view();
                kept.push(l.copy());
                assert(kept.deep_view() =~= k0.push(new[i as int]));
            }
        }
        assert(new.take(new.len() as int) =~= new);
        let ghost left = self.leases.deep_view();
        let ghost added = batch.deep_view();
        assert(removals(left).take(0) =~= Seq::<EventView>::empty());
        assert(added + removals(left).take(0) =~= added);
        for i in 0..self.leases.len()
            invariant
                self.own_lease == old(self).own_lease,
                kept.deep_view() == new.filter(p),
                left == self.leases.deep_view(),
                left.len() == self.leases@.len(),
                batch.deep_view() == added + removals(left).take(i as int),
        {
            let ghost b0 = batch.deep_view();
            assert(left[i as int] == self.leases@[i as int].deep_view());
            let ev = Event { event_type: EventType::Removed, lease: Some(self.leases[i].copy()) };
            batch.push(ev);
            assert(batch.deep_view() =~= b0.push(removals(left)[i as int]));
            assert(removals(left).take(i + 1) =~= removals(left).take(i as int).push(
                removals(left)[i as int],
            ));
            assert(batch.deep_view() =~= added + removals(left).take(i + 1));
        }
        assert(removals(left).take(left.len() as int) =~= removals(left));
        self.leases = kept;
        batch
    }

    fn add(&mut self, lease: &Lease) -> (e: Event)
        ensures
            final(self).leases.deep_view() == with_lease(
                old(self).leases.deep_view(),
                lease.deep_view(),
            ),
            e.deep_view() == event_of(EventType::Added, lease.deep_view()),
            final(self).own_lease == old(self).own_lease,
    {
        let ghost known = self.leases.deep_view();
        assert(known.len() == self.leases@.len());
        let i = find_known(&self.leases, lease);
        let c = lease.copy();
        if i < self.leases.len() {
            self.leases.set(i, c);
            assert(self.leases.deep_view() =~= known.update(i as int, lease.deep_view()));
        } else {
            self.leases.push(c);
            assert(self.leases.deep_view() =~= known.push(lease.deep_view()));
        }
        Event { event_type: EventType::Added, lease: Some(lease.copy()) }
    }

    fn remove(&mut self, lease: &Lease) -> (e: Event)
        ensures
            final(self).leases.deep_view() == without_lease(
                old(self).leases.deep_view(),
                lease.deep_view(),
            ),
            e.deep_view() == event_of(
                EventType::Removed,
                removed_lease(old(self).leases.deep_view(), lease.deep_view()),
            ),
            final(self).own_lease == old(self).own_lease,
    {
        let ghost known = self.leases.deep_view();
        assert(known.len() == self.leases@.len());
        let i = find_known(&self.leases, lease);
        if i < self.leases.len() {
            assert(known[i as int] == self.leases@[i as int].deep_view());
            let removed = self.leases.remove(i);
            assert(self.leases.deep_view() =~= known.remove(i as int));
            Event { event_type: EventType::Removed, lease: Some(removed) }
        } else {
            Event { event_type: EventType::Removed, lease: Some(lease.copy()) }
        }
    }

    /// Takes changes of leases: what is to be reported of them.
    pub fn update(&mut self, events: Vec<Event>) -> (batch: Vec<Event>)
        ensures
            batch.deep_view() == reported(
                old(self).own_lease.deep_view(),
                old(self).leases.deep_view(),
                events.deep_view(),
                events@.len() as int,
            ),
            final(self).leases.deep_view() == known_after(
                old(self).own_lease.deep_view(),
                old(self).leases.deep_view(),
                events.deep_view(),
                events@.len() as int,
            ),
            final(self).own_lease == old(self).own_lease,
    {
        let ghost own = self.own_lease.deep_view();
        let ghost known = self.leases.deep_view();
        let ghost evs = events.deep_view();
        let mut batch: Vec<Event> = Vec::new();
        assert(batch.deep_view() =~= reported(own, known, evs, 0));
        for i in 0..events.len()
            invariant
                own == self.own_lease.deep_view(),
                self.own_lease == old(self).own_lease,
                evs == events.deep_view(),
                evs.len() == events@.len(),
                self.leases.deep_view() == known_after(own, known, evs, i as int),
                batch.deep_view() == reported(own, known, evs, i as int),
        {
            let ghost b0 = batch.deep_view();
            assert(evs[i as int] == events@[i as int].deep_view());
            if let Some(lease) = &events[i].lease {
                assert(evs[i as int].lease == Some(lease.deep_view()));
                if !same_subnet(lease.enable_ipv4, lease.enable_ipv6, &self.own_lease, lease) {
                    match events[i].event_type {
                        EventType::Added => {
                            let e = self.add(lease);
                            let ghost ev = e.deep_view();
                            batch.push(e);
                            assert(batch.deep_view() =~= b0.push(ev));
                        },
                        EventType::Removed => {
                            let e = self.remove(lease);
                            let ghost ev = e.deep_view();
                            batch.push(e);
                            assert(batch.deep_view() =~= b0.push(ev));
                        },
                    }
                }
            }
        }
        batch
    }
}

/// Whether no two of the leases of other nodes are of one subnet.
pub open spec fn distinct_subnets(own: LeaseView, s: Seq<LeaseView>) -> bool {
    forall|i: int, j: int|
        0 <= i < s.len() && 0 <= j < s.len() && i != j && !is_own(own, s[i]) && !is_own(own, s[j])
            ==> !matches_known(#[trigger] s[i], #[trigger] s[j])
}

/// Whether the leases are all of the same families.
pub open spec fn of_families(v4: bool, v6: bool, s: Seq<LeaseView>) -> bool {
    forall|i: int|
        0 <= i < s.len() ==> (#[trigger] s[i]).enable_ipv4 == v4 && s[i].enable_ipv6 == v6
}

/// Whether a lease is one of another node of a subnet that is not known.
pub open spec fn is_new(own: LeaseView, known: Seq<LeaseView>) -> spec_fn(LeaseView) -> bool {
    |l: LeaseView| !is_own(own, l) && !knows(known, l)
}

/// Whether a known lease is of none of the subnets of other nodes in a snapshot.
pub open spec fn is_gone(own: LeaseView, new: Seq<LeaseView>) -> spec_fn(LeaseView) -> bool {
    |k: LeaseView|
        forall|i: int|
            0 <= i < new.len() && !is_own(own, #[trigger] new[i]) ==> !matches_known(k, new[i])
}

pub open spec fn arrivals(s: Seq<LeaseView>) -> Seq<EventView> {
    s.map_values(|l: LeaseView| event_of(EventType::Added, l))
}

/// A reset reports the leases of other nodes whose subnets were not known as added, and then the
/// known ones whose subnets are missing as removed, each in their order. Once more with the same
/// leases it reports nothing. No two leases of other nodes in the snapshot are of one subnet, and
/// all leases are of the same families.
pub proof fn law_reset_reports_the_difference(
    own: LeaseView,
    known: Seq<LeaseView>,
    new: Seq<LeaseView>,
    v4: bool,
    v6: bool,
)
    requires
        distinct_subnets(own, new),
        of_families(v4, v6, known),
        of_families(v4, v6, new),
    ensures
        snapshot_changes(own, known, new) == arrivals(new.filter(is_new(own, known))) + removals(
            known.filter(is_gone(own, new)),
        ),
        snapshot_changes(own, new.filter(others(own)), new).len() == 0,
        only_others(own, new) ==> new.filter(others(own)) == new,
{
    if only_others(own, new) {
        lemma_filter_all(new, others(own));
    }
    let n = new.len() as int;
    lemma_difference(own, known, new, v4, v6, n);
    assert(new.take(n) =~= new);
    assert(additions(own, known, new, n) =~= arrivals(new.filter(is_new(own, known))));
    law_unchanged_snapshot_brings_nothing(own, new);
}

proof fn lemma_difference(
    own: LeaseView,
    known: Seq<LeaseView>,
    new: Seq<LeaseView>,
    v4: bool,
    v6: bool,
    n: int,
)
    requires
        distinct_subnets(own, new),
        of_families(v4, v6, known),
        of_families(v4, v6, new),
        0 <= n <= new.len(),
    ensures
        remaining(own, known, new, n) == known.filter(is_gone(own, new.take(n))),
        additions(own, known, new, n) == arrivals(new.take(n).filter(is_new(own, known))),
    decreases n,
{
    let gone = is_gone(own, new.take(n));
    let fresh = is_new(own, known);
    if n == 0 {
        lemma_filter_all(known, gone);
        seqs::lemma_filter_none(new, fresh);
        assert(additions(own, known, new, 0) =~= arrivals(new.take(0).filter(fresh)));
    } else {
        lemma_difference(own, known, new, v4, v6, n - 1);
        let before = is_gone(own, new.take(n - 1));
        let l = new[n - 1];
        let r = known.filter(before);
        seqs::lemma_filter_take(new, fresh, n - 1);
        let a0 = new.take(n - 1).filter(fresh);
        assert(arrivals(a0.push(l)) =~= arrivals(a0).push(event_of(EventType::Added, l)));
        assert forall|k: LeaseView| #[trigger] gone(k) == (before(k) && (is_own(own, l)
            || !matches_known(k, l))) by {
            lemma_gone(own, new, n, k);
        }
        if is_own(own, l) {
            lemma_same_filter(known, before, gone);
        } else {
            lemma_filter_twice(known, before, unmatched(l), gone);
            seqs::lemma_filter_members(known, before);
            if knows(known, l) {
                let i = choose|i: int|
                    0 <= i < known.len() && matches_known(#[trigger] known[i], l);
                assert(before(known[i])) by {
                    assert forall|j: int|
                        0 <= j < n - 1 && !is_own(
                            own,
                            #[trigger] new.take(n - 1)[j],
                        ) implies !matches_known(known[i], new.take(n - 1)[j]) by {
                        assert(new.take(n - 1)[j] == new[j]);
                        assert(!matches_known(new[j], new[n - 1]));
                    }
                }
                assert(known.contains(known[i]));
                assert(r.contains(known[i]));
                let m = choose|m: int| 0 <= m < r.len() && r[m] == known[i];
                assert(matches_known(r[m], l));
            }
            if knows(r, l) {
                let m = choose|m: int| 0 <= m < r.len() && matches_known(#[trigger] r[m], l);
                assert(r.contains(r[m]));
                let i = choose|i: int| 0 <= i < known.len() && known[i] == r[m];
                assert(matches_known(known[i], l));
            }
        }
    }
}

proof fn lemma_gone(own: LeaseView, new: Seq<LeaseView>, n: int, k: LeaseView)
    requires
        0 < n <= new.len(),
    ensures
        is_gone(own, new.take(n))(k) == (is_gone(own, new.take(n - 1))(k) && (is_own(
            own,
            new[n - 1],
        ) || !matches_known(k, new[n - 1]))),
{
    let a = new.take(n);
    let b = new.take(n - 1);
    if is_gone(own, a)(k) {
        assert forall|j: int| 0 <= j < b.len() && !is_own(own, #[trigger] b[j]) implies !matches_known(
            k,
            b[j],
        ) by {
            assert(a[j] == b[j]);
        }
        assert(a[n - 1] == new[n - 1]);
    }
    if is_gone(own, b)(k) && (is_own(own, new[n - 1]) || !matches_known(k, new[n - 1])) {
        assert forall|j: int| 0 <= j < a.len() && !is_own(own, #[trigger] a[j]) implies !matches_known(
            k,
            a[j],
        ) by {
            if j < n - 1 {
                assert(a[j] == b[j]);
            }
        }
    }
}

proof fn lemma_same_filter(
    s: Seq<LeaseView>,
    p: spec_fn(LeaseView) -> bool,
    q: spec_fn(LeaseView) -> bool,
)
    requires
        forall|x: LeaseView| #[trigger] q(x) == p(x),
    ensures
        s.filter(p) == s.filter(q),
    decreases s.len(),
{
    reveal(Seq::filter);
    if s.len() > 0 {
        lemma_same_filter(s.drop_last(), p, q);
        assert(q(s.last()) == p(s.last()));
    }
}

proof fn lemma_filter_twice(
    s: Seq<LeaseView>,
    p: spec_fn(LeaseView) -> bool,
    q: spec_fn(LeaseView) -> bool,
    r: spec_fn(LeaseView) -> bool,
)
    requires
        forall|x: LeaseView| #[trigger] r(x) == (p(x) && q(x)),
    ensures
        s.filter(p).filter(q) == s.filter(r),
    decreases s.len(),
{
    reveal(Seq::filter);
    if s.len() > 0 {
        lemma_filter_twice(s.drop_last(), p, q, r);
        assert(r(s.last()) == (p(s.last()) && q(s.last())));
        let f = s.drop_last().filter(p);
        if p(s.last()) {
            assert(f.push(s.last()).drop_last() =~= f);
        }
    }
}

/// A snapshot of leases that was taken before brings no changes: those of other nodes are known,
/// and the own one is passed over.
pub proof fn law_unchanged_snapshot_brings_nothing(own: LeaseView, leases: Seq<LeaseView>)
    requires
        distinct_subnets(own, leases),
    ensures
        snapshot_changes(own, leases.filter(others(own)), leases).len() == 0,
{
    let n = leases.len() as int;
    lemma_all_known(own, leases, n);
    seqs::lemma_filter_none(leases, others(own));
    assert(leases.skip(n) =~= Seq::<LeaseView>::empty());
    reveal(Seq::filter);
}

proof fn lemma_all_known(own: LeaseView, leases: Seq<LeaseView>, n: int)
    requires
        distinct_subnets(own, leases),
        0 <= n <= leases.len(),
    ensures
        remaining(own, leases.filter(others(own)), leases, n) == leases.skip(n).filter(
            others(own),
        ),
        additions(own, leases.filter(others(own)), leases, n).len() == 0,
    decreases n,
{
    let f = others(own);
    if n == 0 {
        assert(leases.skip(0) =~= leases);
    } else {
        lemma_all_known(own, leases, n - 1);
        let l = leases[n - 1];
        let rest = leases.skip(n);
        assert(leases.skip(n - 1) =~= seq![l] + rest);
        if is_own(own, l) {
            lemma_filter_rest(l, rest, f);
        } else {
            let r = (seq![l] + rest).filter(f);
            let p = unmatched(l);
            lemma_filter_first(l, rest, f);
            assert(r[0] == l);
            assert(matches_known(r[0], l));
            assert(knows(r, l));
            lemma_filter_rest(l, rest.filter(f), p);
            seqs::lemma_filter_members(rest, f);
            assert forall|i: int| 0 <= i < rest.filter(f).len() implies p(
                #[trigger] rest.filter(f)[i],
            ) by {
                let x = rest.filter(f)[i];
                assert(rest.filter(f).contains(x));
                let j = choose|j: int| 0 <= j < rest.len() && rest[j] == x;
                assert(leases[n + j] == x);
                assert(f(x));
                assert(!matches_known(leases[n + j], leases[n - 1]));
            }
            lemma_filter_all(rest.filter(f), p);
        }
    }
}

proof fn lemma_filter_first(x: LeaseView, s: Seq<LeaseView>, p: spec_fn(LeaseView) -> bool)
    requires
        p(x),
    ensures
        (seq![x] + s).filter(p) == seq![x] + s.filter(p),
    decreases s.len(),
{
    reveal(Seq::filter);
    let t = seq![x] + s;
    if s.len() == 0 {
        assert(t =~= seq![x]);
        assert(t.drop_last() =~= Seq::<LeaseView>::empty());
        assert(t.last() == x);
        assert(Seq::<LeaseView>::empty().filter(p) =~= Seq::<LeaseView>::empty());
        assert(s =~= Seq::<LeaseView>::empty());
        assert(t.filter(p) =~= seq![x] + s.filter(p));
    } else {
        lemma_filter_first(x, s.drop_last(), p);
        assert(t.drop_last() =~= seq![x] + s.drop_last());
        assert(t.last() == s.last());
        assert(t.filter(p) =~= seq![x] + s.filter(p));
    }
}

proof fn lemma_filter_rest(x: LeaseView, s: Seq<LeaseView>, p: spec_fn(LeaseView) -> bool)
    requires
        !p(x),
    ensures
        (seq![x] + s).filter(p) == s.filter(p),
    decreases s.len(),
{
    reveal(Seq::filter);
    let t = seq![x] + s;
    if s.len() == 0 {
        assert(t =~= seq![x]);
        assert(t.drop_last() =~= Seq::<LeaseView>::empty());
        assert(Seq::<LeaseView>::empty().filter(p) =~= Seq::<LeaseView>::empty());
        assert(s =~= Seq::<LeaseView>::empty());
        assert(t.last() == x);
    } else {
        lemma_filter_rest(x, s.drop_last(), p);
        assert(t.drop_last() =~= seq![x] + s.drop_last());
        assert(t.last() == s.last());
    }
}

proof fn lemma_filter_all(s: Seq<LeaseView>, p: spec_fn(LeaseView) -> bool)
    requires
        forall|i: int| 0 <= i < s.len() ==> p(#[trigger] s[i]),
    ensures
        s.filter(p) == s,
    decreases s.len(),
{
    reveal(Seq::filter);
    if s.len() > 0 {
        lemma_filter_all(s.drop_last(), p);
        assert(s =~= s.drop_last().push(s.last()));
    }
}

/// The own lease is never among the known ones, whether they come from a snapshot or from changes.
pub proof fn law_own_lease_is_never_known(
    own: LeaseView,
    known: Seq<LeaseView>,
    new: Seq<LeaseView>,
    events: Seq<EventView>,
    n: int,
)
    requires
        only_others(own, known),
        0 <= n <= events.len(),
    ensures
        only_others(own, new.filter(others(own))),
        only_others(own, known_after(own, known, events, n)),
    decreases n,
{
    seqs::lemma_filter_members(new, others(own));
    let f = new.filter(others(own));
    assert forall|i: int| 0 <= i < f.len() implies !is_own(own, #[trigger] f[i]) by {
        assert(others(own)(f[i]));
    }
    if n > 0 {
        law_own_lease_is_never_known(own, known, new, events, n - 1);
        let before = known_after(own, known, events, n - 1);
        if let Some(l) = events[n - 1].lease {
            let after = known_after(own, known, events, n);
            let at = position(before, l, 0);
            lemma_position_bounds(before, l, 0);
            if !is_own(own, l) {
                assert forall|i: int| 0 <= i < after.len() implies !is_own(
                    own,
                    #[trigger] after[i],
                ) by {
                    if events[n - 1].event_type == EventType::Removed && at < before.len() {
                        if i < at {
                            assert(after[i] == before[i]);
                        } else {
                            assert(after[i] == before[i + 1]);
                        }
                    } else if i < before.len() && i != at {
                        assert(after[i] == before[i]);
                    }
                }
            }
        }
    }
}

proof fn lemma_position_bounds(known: Seq<LeaseView>, l: LeaseView, from: int)
    requires
        0 <= from <= known.len(),
    ensures
        from <= position(known, l, from) <= known.len(),
    decreases known.len() - from,
{
    if from < known.len() && !matches_known(known[from], l) {
        lemma_position_bounds(known, l, from + 1);
    }
}

/// Removing a lease that was just added leaves the leases that were known before.
pub proof fn law_removal_undoes_addition(known: Seq<LeaseView>, l: LeaseView)
    requires
        !knows(known, l),
    ensures
        without_lease(with_lease(known, l), l) == known,
        removed_lease(with_lease(known, l), l) == l,
{
    lemma_position_unknown(known, l, 0);
    let w = known.push(l);
    assert forall|i: int| 0 <= i < known.len() implies !matches_known(#[trigger] w[i], l) by {
        assert(w[i] == known[i]);
        assert(!matches_known(known[i], l));
    }
    lemma_position_last(w, l, 0);
    assert(w.remove(known.len() as int) =~= known);
}

proof fn lemma_position_unknown(known: Seq<LeaseView>, l: LeaseView, from: int)
    requires
        !knows(known, l),
        0 <= from,
    ensures
        position(known, l, from) == known.len(),
    decreases known.len() - from,
{
    if from < known.len() {
        assert(!matches_known(known[from], l));
        lemma_position_unknown(known, l, from + 1);
    }
}

proof fn lemma_position_last(w: Seq<LeaseView>, l: LeaseView, from: int)
    requires
        w.len() > 0,
        w.last() == l,
        0 <= from < w.len(),
        forall|i: int| 0 <= i < w.len() - 1 ==> !matches_known(#[trigger] w[i], l),
    ensures
        position(w, l, from) == w.len() - 1,
    decreases w.len() - from,
{
    if from < w.len() - 1 {
        assert(!matches_known(w[from], l));
        lemma_position_last(w, l, from + 1);
    } else {
        assert(matches_known(w[from], l));
    }
}

/// Whether leases are of nodes with the shorter addresses only.
pub open spec fn short_only(s: Seq<LeaseView>) -> bool {
    forall|i: int| 0 <= i < s.len() ==> (#[trigger] s[i]).enable_ipv4 && !s[i].enable_ipv6
}

/// Whether no two leases are of one subnet.
pub open spec fn one_each(s: Seq<LeaseView>) -> bool {
    forall|i: int, j: int| 0 <= i < j < s.len() ==> (#[trigger] s[i]).subnet != (#[trigger] s[j]).subnet
}

/// Whether one of the leases is of the subnet.
pub open spec fn has_subnet(s: Seq<LeaseView>, n: Ipv4Network) -> bool {
    exists|i: int| 0 <= i < s.len() && (#[trigger] s[i]).subnet == n
}

/// After a snapshot the leases that are known are those of the snapshot but the node's own. What
/// is reported are the additions of those whose subnet was not known before, and the removals of
/// the known ones whose subnet the snapshot lacks. The leases are of the shorter addresses, and no
/// two of one list are of one subnet.
pub proof fn law_snapshot_is_taken_over(w: &mut LeaseWatcher, new: Vec<Lease>, batch: Vec<Event>)
    requires
        call_ensures(LeaseWatcher::reset, (w, new), batch),
        short_only(new.deep_view()),
        short_only(old(w).leases.deep_view()),
        one_each(new.deep_view()),
    ensures
        ({
            let own = old(w).own_lease.subnet;
            let known = old(w).leases.deep_view();
            let snapshot = new.deep_view();
            let events = batch.deep_view();
            &&& forall|l: LeaseView| #[trigger]
                final(w).leases.deep_view().contains(l) <==> snapshot.contains(l) && l.subnet != own
            &&& forall|l: LeaseView| #[trigger]
                events.contains(EventView { event_type: EventType::Added, lease: Some(l) })
                    <==> snapshot.contains(l) && l.subnet != own && !has_subnet(known, l.subnet)
            &&& forall|l: LeaseView| #[trigger]
                events.contains(EventView { event_type: EventType::Removed, lease: Some(l) })
                    <==> known.contains(l) && (l.subnet == own || !has_subnet(snapshot, l.subnet))
            &&& final(w).own_lease == old(w).own_lease
        }),
{
    let own = old(w).own_lease.deep_view();
    let known = old(w).leases.deep_view();
    let snapshot = new.deep_view();
    let events = batch.deep_view();
    assert(own.subnet == old(w).own_lease.subnet);
    assert(distinct_subnets(own, snapshot)) by {
        assert forall|i: int, j: int|
            0 <= i < snapshot.len() && 0 <= j < snapshot.len() && i != j && !is_own(own, snapshot[i])
                && !is_own(own, snapshot[j]) implies !matches_known(
            #[trigger] snapshot[i],
            #[trigger] snapshot[j],
        ) by {
            if i < j {
                assert(snapshot[i].subnet != snapshot[j].subnet);
            } else {
                assert(snapshot[j].subnet != snapshot[i].subnet);
            }
        }
    }
    law_reset_reports_the_difference(own, known, snapshot, true, false);
    let fresh = snapshot.filter(is_new(own, known));
    let gone = known.filter(is_gone(own, snapshot));
    seqs::lemma_filter_members(snapshot, is_new(own, known));
    seqs::lemma_filter_members(known, is_gone(own, snapshot));
    seqs::lemma_filter_members(snapshot, others(own));
    assert forall|l: LeaseView| #[trigger] final(w).leases.deep_view().contains(l)
        <==> snapshot.contains(l) && l.subnet != own.subnet by {
        if snapshot.contains(l) {
            let i = choose|i: int| 0 <= i < snapshot.len() && snapshot[i] == l;
            assert(snapshot[i].enable_ipv4);
        }
    }
    assert forall|l: LeaseView| #[trigger]
        events.contains(EventView { event_type: EventType::Added, lease: Some(l) })
            <==> snapshot.contains(l) && l.subnet != own.subnet && !has_subnet(known, l.subnet) by {
        let e = EventView { event_type: EventType::Added, lease: Some(l) };
        if events.contains(e) {
            let k = choose|k: int| 0 <= k < events.len() && events[k] == e;
            assert(k < fresh.len());
            assert(arrivals(fresh)[k] == event_of(EventType::Added, fresh[k]));
            assert(fresh[k] == l);
            assert(fresh.contains(l));
        }
        if fresh.contains(l) {
            let k = choose|k: int| 0 <= k < fresh.len() && fresh[k] == l;
            assert(arrivals(fresh)[k] == e);
            assert(events[k] == e);
        }
        assert(fresh.contains(l) <==> snapshot.contains(l) && is_new(own, known)(l));
        if snapshot.contains(l) {
            let i = choose|i: int| 0 <= i < snapshot.len() && snapshot[i] == l;
            assert(snapshot[i].enable_ipv4);
            if knows(known, l) {
                let k = choose|k: int| 0 <= k < known.len() && matches_known(#[trigger] known[k], l);
                assert(known[k].subnet == l.subnet);
            }
            if has_subnet(known, l.subnet) {
                let k = choose|k: int| 0 <= k < known.len() && (#[trigger] known[k]).subnet == l.subnet;
                assert(matches_known(known[k], l));
            }
        }
    }
    assert forall|l: LeaseView| #[trigger]
        events.contains(EventView { event_type: EventType::Removed, lease: Some(l) })
            <==> known.contains(l) && (l.subnet == own.subnet || !has_subnet(snapshot, l.subnet)) by {
        let e = EventView { event_type: EventType::Removed, lease: Some(l) };
        if events.contains(e) {
            let k = choose|k: int| 0 <= k < events.len() && events[k] == e;
            if k < fresh.len() {
                assert(arrivals(fresh)[k] == event_of(EventType::Added, fresh[k]));
            }
            assert(removals(gone)[k - fresh.len()] == event_of(
                EventType::Removed,
                gone[k - fresh.len()],
            ));
            assert(gone[k - fresh.len()] == l);
            assert(gone.contains(l));
        }
        if gone.contains(l) {
            let k = choose|k: int| 0 <= k < gone.len() && gone[k] == l;
            assert(removals(gone)[k] == e);
            assert(events[fresh.len() + k] == e);
        }
        assert(gone.contains(l) <==> known.contains(l) && is_gone(own, snapshot)(l));
        if known.contains(l) {
            let k = choose|k: int| 0 <= k < known.len() && known[k] == l;
            assert(known[k].enable_ipv4);
            if is_gone(own, snapshot)(l) && l.subnet != own.subnet && has_subnet(snapshot, l.subnet) {
                let i = choose|i: int|
                    0 <= i < snapshot.len() && (#[trigger] snapshot[i]).subnet == l.subnet;
                assert(!is_own(own, snapshot[i]));
                assert(matches_known(l, snapshot[i]));
            }
            if !is_gone(own, snapshot)(l) {
                let i = choose|i: int|
                    0 <= i < snapshot.len() && !is_own(own, #[trigger] snapshot[i])
                        && matches_known(l, snapshot[i]);
                assert(snapshot[i].subnet == l.subnet);
                assert(snapshot[i].enable_ipv4);
            }
        }
    }
}

/// One change is followed: that of the node's own lease is passed over; a lease that is added is
/// reported and known afterwards, in the place of the one of its subnet if there was one; and one
/// that is removed is reported, as it was known, and is known no longer. Leases of other subnets
/// stay. All leases are of the shorter addresses.
pub proof fn law_one_change_is_followed(w: &mut LeaseWatcher, events: Vec<Event>, batch: Vec<Event>)
    requires
        call_ensures(LeaseWatcher::update, (w, events), batch),
        events@.len() == 1,
        events@[0].lease is Some,
        events@[0].lease->0.enable_ipv4 && !events@[0].lease->0.enable_ipv6,
        short_only(old(w).leases.deep_view()),
        one_each(old(w).leases.deep_view()),
    ensures
        ({
            let own = old(w).own_lease.subnet;
            let l = events@[0].lease->0.deep_view();
            let t = events@[0].event_type;
            let before = old(w).leases.deep_view();
            let after = final(w).leases.deep_view();
            &&& l.subnet == own ==> batch@.len() == 0 && after == before
            &&& l.subnet != own ==> batch@.len() == 1 && batch@[0].event_type == t
            &&& l.subnet != own && t == EventType::Added ==> batch.deep_view()[0].lease == Some(l)
            &&& l.subnet != own && t == EventType::Added ==> forall|k: LeaseView| #[trigger]
                after.contains(k) <==> k == l || before.contains(k) && k.subnet != l.subnet
            &&& l.subnet != own && t == EventType::Removed ==> forall|k: LeaseView| #[trigger]
                after.contains(k) <==> before.contains(k) && k.subnet != l.subnet
            &&& l.subnet != own && t == EventType::Removed && has_subnet(before, l.subnet)
                ==> before.contains(batch.deep_view()[0].lease->0)
                && batch.deep_view()[0].lease->0.subnet == l.subnet
        }),
{
    let own = old(w).own_lease.deep_view();
    let before = old(w).leases.deep_view();
    let after = final(w).leases.deep_view();
    let ev = events.deep_view();
    assert(ev.len() == 1);
    assert(ev[0] == events@[0].deep_view());
    let l = events@[0].lease->0.deep_view();
    assert(ev[0].lease == Some(l));
    assert(batch.deep_view().len() == batch@.len());
    reveal_with_fuel(reported, 2);
    reveal_with_fuel(known_after, 2);
    let i = position(before, l, 0);
    lemma_position_bounds(before, l, 0);
    lemma_position_matches(before, l, 0);
    assert(l.subnet == own.subnet <==> is_own(own, l));
    if batch@.len() == 1 {
        assert(batch.deep_view()[0] == batch@[0].deep_view());
    }
    assert forall|k: int| 0 <= k < before.len() implies (#[trigger] before[k]).subnet == l.subnet
        <==> matches_known(before[k], l) by {
        assert(before[k].enable_ipv4);
    }
    if l.subnet != own.subnet {
        assert forall|k: LeaseView| before.contains(k) && k.subnet == l.subnet implies i < before.len() && k
            == before[i] by {
            let p = choose|p: int| 0 <= p < before.len() && before[p] == k;
            assert(matches_known(before[p], l));
            if p < i {
                assert(!matches_known(before[p], l));
            } else if p > i {
                assert(before[i].subnet == l.subnet);
                assert(before[i].subnet != before[p].subnet);
            }
        }
        if ev[0].event_type == EventType::Added {
            assert forall|k: LeaseView| #[trigger] after.contains(k) <==> k == l || before.contains(k)
                && k.subnet != l.subnet by {
                if after.contains(k) {
                    let p = choose|p: int| 0 <= p < after.len() && after[p] == k;
                    if p != i {
                        assert(before[p] == k);
                        if k.subnet == l.subnet {
                            assert(before.contains(k));
                            assert(before[i].subnet != before[p].subnet || i == p);
                        }
                    }
                }
                if k == l {
                    assert(after[i] == l);
                }
                if before.contains(k) && k.subnet != l.subnet {
                    let p = choose|p: int| 0 <= p < before.len() && before[p] == k;
                    assert(after[p] == k);
                }
            }
        } else {
            assert forall|k: LeaseView| #[trigger] after.contains(k) <==> before.contains(k) && k.subnet
                != l.subnet by {
                if after.contains(k) {
                    let p = choose|p: int| 0 <= p < after.len() && after[p] == k;
                    let q = if i < before.len() && p >= i {
                        p + 1
                    } else {
                        p
                    };
                    assert(before[q] == k);
                    assert(before.contains(k));
                }
                if before.contains(k) && k.subnet != l.subnet {
                    let p = choose|p: int| 0 <= p < before.len() && before[p] == k;
                    assert(p != i);
                    if i < before.len() && p > i {
                        assert(after[p - 1] == k);
                    } else {
                        assert(after[p] == k);
                    }
                }
            }
            if has_subnet(before, l.subnet) {
                let p = choose|p: int| 0 <= p < before.len() && (#[trigger] before[p]).subnet == l.subnet;
                assert(before.contains(before[p]));
                assert(before.contains(before[i]));
            }
        }
    }
}

proof fn lemma_position_matches(known: Seq<LeaseView>, l: LeaseView, from: int)
    requires
        0 <= from <= known.len(),
    ensures
        forall|k: int|
            from <= k < position(known, l, from) ==> !matches_known(#[trigger] known[k], l),
        position(known, l, from) < known.len() ==> matches_known(
            known[position(known, l, from)],
            l,
        ),
    decreases known.len() - from,
{
    if from < known.len() && !matches_known(known[from], l) {
        lemma_position_matches(known, l, from + 1);
    }
}

} // verus!

//! Decides which packet filter rules go to the workers when services and endpoints change.
use vstd::prelude::*;
use crate::controllers::endpoint_controller;
use crate::json;
use crate::json::read_list;
use crate::protocol::dict::{Dict, TextSet};
use crate::protocol::meta::ResourceKind;
use crate::protocol::service::{Endpoint, EndpointSubset, EndpointSubsetView, EndpointView, ServiceTask, ServiceTaskView};
use crate::protocol::value::Value;
use crate::seqs;
use crate::text;
use crate::text::str_eq;
use vstd::string::*;

verus! {

/// The wait between an event and the work on its service, in milliseconds.
pub const DEBOUNCE_MS: u64 = 200;

/// The number of failures in a row after which a service is given up.
pub const MAX_RETRIES: u32 = 15;

/// The number of times rules are sent again to a worker at most.
pub const MAX_SEND_ATTEMPTS: u64 = 3;

/// What the work on a service comes to.
#[derive(Debug, Clone, Copy, PartialEq, Eq, Structural)]
pub enum NftPlan {
    /// Nothing changed.
    Unchanged,
    /// The service is new: rules for it and for its discovery.
    FirstSeen,
    /// The spec changed: all rules are sent.
    FullSync,
    /// Only the endpoints changed: rules for the difference.
    EndpointDiff,
    /// The stored copy of the service cannot be read.
    Unreadable,
}

/// Which services wait in the queue, changed while they were worked on, are being worked on,
/// and how often they failed.
pub struct NftQueue {
    pub queued: TextSet,
    pub dirty: TextSet,
    pub processing: TextSet,
    pub attempts: Dict<u32>,
}

/// The contents of the queue.
pub struct NftQueueView {
    pub queued: Set<Seq<char>>,
    pub dirty: Set<Seq<char>>,
    pub processing: Set<Seq<char>>,
    pub attempts: Map<Seq<char>, u32>,
}

impl View for NftQueue {
    type V = NftQueueView;

    open spec fn view(&self) -> NftQueueView {
        NftQueueView {
            queued: self.queued@,
            dirty: self.dirty@,
            processing: self.processing@,
            attempts: self.attempts@,
        }
    }
}

/// How the work on a service ended.
#[derive(Debug, Clone, Copy, PartialEq, Eq, Structural)]
pub struct NftFinished {
    /// The wait before the service is worked on again after a failure, in milliseconds.
    pub retry_after: Option<u64>,
    /// Whether the service goes back to the queue because it changed meanwhile.
    pub requeue: bool,
}

/// The number of failures in a row of a service.
pub open spec fn failures(q: NftQueueView, key: Seq<char>) -> int {
    if q.attempts.contains_key(key) {
        q.attempts[key] as int
    } else {
        0
    }
}

impl NftQueueView {
    /// The queue after the wait for a service is over.
    pub open spec fn due(self, key: Seq<char>) -> NftQueueView {
        if self.processing.contains(key) {
            NftQueueView { dirty: self.dirty.insert(key), ..self }
        } else {
            NftQueueView { queued: self.queued.insert(key), ..self }
        }
    }

    /// The queue after the work on a service starts.
    pub open spec fn started(self, key: Seq<char>) -> NftQueueView {
        NftQueueView {
            queued: self.queued.remove(key),
            processing: self.processing.insert(key),
            ..self
        }
    }

    /// The queue after the work on a service ended.
    pub open spec fn finished(self, key: Seq<char>, ok: bool) -> NftQueueView {
        NftQueueView {
            processing: self.processing.remove(key),
            dirty: self.dirty.remove(key),
            queued: if self.dirty.contains(key) {
                self.queued.insert(key)
            } else {
                self.queued
            },
            attempts: if ok || self.dirty.contains(key) || failures(self, key) + 1 > MAX_RETRIES {
                self.attempts.remove(key)
            } else {
                self.attempts.insert(key, (failures(self, key) + 1) as u32)
            },
        }
    }
}

impl NftQueue {
    pub fn new() -> (r: Self)
        ensures
            r@.queued == Set::<Seq<char>>::empty(),
            r@.dirty == Set::<Seq<char>>::empty(),
            r@.processing == Set::<Seq<char>>::empty(),
            r@.attempts == Map::<Seq<char>, u32>::empty(),
    {
        NftQueue {
            queued: TextSet::new(),
            dirty: TextSet::new(),
            processing: TextSet::new(),
            attempts: Dict::new(),
        }
    }

    /// The wait for a service is over. The result says whether it is to be sent to the
    /// queue. A service that is being worked on is marked and goes back when the work ends;
    /// one that waits in the queue is not sent twice.
    pub fn schedule_enqueue(&mut self, key: &String) -> (r: bool)
        ensures
            r == (!old(self)@.processing.contains(key@) && !old(self)@.queued.contains(key@)),
            final(self)@ == old(self)@.due(key@),
    {
        if self.processing.contains(key.as_str()) {
            self.dirty.insert(key.clone());
            return false;
        }
        self.queued.insert(key.clone())
    }

    /// A service could not be sent to the queue.
    pub fn send_failed(&mut self, key: &String)
        ensures
            final(self)@ == (NftQueueView { queued: old(self)@.queued.remove(key@), ..old(self)@ }),
    {
        self.queued.remove(key.as_str());
    }

    /// The work on a service starts.
    pub fn start(&mut self, key: &String)
        ensures
            final(self)@ == old(self)@.started(key@),
    {
        self.queued.remove(key.as_str());
        self.processing.insert(key.clone());
    }

    /// The work on a service ended. After a failure it is tried again later; after too many
    /// its count starts anew. A change that came meanwhile resets the count and sends the
    /// service back to the queue, unless it waits there already.
    pub fn finish(&mut self, key: &String, ok: bool) -> (r: NftFinished)
        requires
            failures(old(self)@, key@) < u32::MAX,
        ensures
            final(self)@ == old(self)@.finished(key@, ok),
            r.requeue == (old(self)@.dirty.contains(key@) && !old(self)@.queued.contains(key@)),
            ({
                let count = failures(old(self)@, key@) + 1;
                r.retry_after == if !ok && count <= MAX_RETRIES {
                    Some(endpoint_controller::retry_wait(count as nat) as u64)
                } else {
                    None
                }
            }),
    {
        let ghost q0 = self@;
        let mut retry_after: Option<u64> = None;
        if ok {
            self.attempts.remove(key.as_str());
        } else {
            let count: u32 = match self.attempts.get(key.as_str()) {
                Some(n) => *n + 1,
                None => 1,
            };
            if count <= MAX_RETRIES {
                self.attempts.insert(key.clone(), count);
                retry_after = Some(endpoint_controller::wait_after(count));
            } else {
                self.attempts.remove(key.as_str());
            }
        }
        self.processing.remove(key.as_str());
        let mut requeue = false;
        if self.dirty.remove(key.as_str()) {
            self.attempts.remove(key.as_str());
            requeue = self.queued.insert(key.clone());
        }
        assert(self.attempts@ =~= q0.finished(key@, ok).attempts);
        NftFinished { retry_after, requeue }
    }
}

/// A change that comes while a service is worked on is worked on afterwards: when the work
/// ends the service waits in the queue.
pub proof fn law_changes_during_work_are_requeued(q: NftQueueView, key: Seq<char>, ok: bool)
    ensures
        q.started(key).due(key).dirty.contains(key),
        q.started(key).due(key).finished(key, ok).queued.contains(key),
        !q.started(key).due(key).finished(key, ok).processing.contains(key),
        !q.started(key).due(key).finished(key, ok).attempts.contains_key(key),
{
}

/// A service never waits in the queue twice, and while it is worked on it does not wait there
/// on account of events.
pub proof fn law_events_are_merged(q: NftQueueView, key: Seq<char>)
    ensures
        q.due(key).due(key) == q.due(key),
        q.started(key).due(key).queued == q.started(key).queued,
{
    assert(q.due(key).due(key).dirty =~= q.due(key).dirty);
    assert(q.due(key).due(key).queued =~= q.due(key).queued);
}

/// Whether two services have one identity.
pub open spec fn same_identity(a: ServiceTaskView, b: ServiceTaskView) -> bool {
    a.metadata.namespace == b.metadata.namespace && a.metadata.name == b.metadata.name
}

pub open spec fn other_service(b: ServiceTaskView) -> spec_fn(ServiceTaskView) -> bool {
    |a: ServiceTaskView| !same_identity(a, b)
}

/// Whether one of the services has the identity.
pub open spec fn is_among(s: Seq<ServiceTaskView>, b: ServiceTaskView) -> bool {
    exists|i: int| 0 <= i < s.len() && same_identity(#[trigger] s[i], b)
}

/// The key under which a payload lists its rules.
pub const RULES_KEY: &'static str = "nftables";

/// Why payloads could not be merged.
#[derive(Debug, PartialEq, Eq)]
pub enum MergeError {
    /// A payload is not JSON, and why.
    NotJson(String),
    NoRuleList,
}

/// The text of an error.
pub open spec fn merge_error_text(e: MergeError) -> Seq<char> {
    match e {
        MergeError::NotJson(m) => "failed to parse incremental nftables payload as json: "@ + m@,
        MergeError::NoRuleList => "incremental nftables payload missing `nftables` array"@,
    }
}

impl MergeError {
    /// The error as it is reported.
    pub fn message(&self) -> (r: String)
        ensures
            r@ == merge_error_text(*self),
    {
        match self {
            MergeError::NotJson(m) => {
                text::concat2("failed to parse incremental nftables payload as json: ", m.as_str())
            },
            MergeError::NoRuleList => {
                "incremental nftables payload missing `nftables` array".to_owned()
            },
        }
    }
}

/// The items of the first `n` payloads, in order.
pub open spec fn all_items(lists: Seq<Seq<Seq<char>>>, n: int) -> Seq<Seq<char>>
    decreases n,
{
    if n <= 0 {
        Seq::empty()
    } else {
        all_items(lists, n - 1) + lists[n - 1]
    }
}

/// The items joined by commas.
pub open spec fn joined(items: Seq<Seq<char>>) -> Seq<char>
    decreases items.len(),
{
    if items.len() == 0 {
        Seq::empty()
    } else if items.len() == 1 {
        items[0]
    } else {
        joined(items.drop_last()) + ","@ + items.last()
    }
}

/// The payload with the items.
pub open spec fn payload_of(items: Seq<Seq<char>>) -> Seq<char> {
    "{\"nftables\":["@ + joined(items) + "]}"@
}

/// The payload with the given items.
pub fn payload_with(items: &Vec<String>) -> (r: String)
    ensures
        r@ == payload_of(text::texts(items@)),
{
    let ghost all = text::texts(items@);
    let mut body = String::new();
    assert(all.take(0) =~= Seq::<Seq<char>>::empty());
    for i in 0..items.len()
        invariant
            all == text::texts(items@),
            body@ == joined(all.take(i as int)),
    {
        proof {
            assert(all.take(i as int + 1).drop_last() =~= all.take(i as int));
            assert(all.take(i as int + 1).last() == items@[i as int]@);
        }
        if i > 0 {
            body.append(",");
        } else {
            assert(all.take(1)[0] == items@[0]@);
        }
        body.append(items[i].as_str());
        assert(body@ =~= joined(all.take(i as int + 1)));
    }
    assert(all.take(items@.len() as int) =~= all);
    text::concat3("{\"nftables\":[", body.as_str(), "]}")
}

/// The text of the error of a payload that cannot be merged.
pub open spec fn payload_error(payload: Seq<char>) -> Option<Seq<char>> {
    match json::json_list(payload, RULES_KEY@) {
        Err(m) => Some("failed to parse incremental nftables payload as json: "@ + m),
        Ok(None) => Some("incremental nftables payload missing `nftables` array"@),
        Ok(Some(_)) => None,
    }
}

/// The items of a payload that can be merged, each as JSON text.
pub open spec fn items_of(payload: Seq<char>) -> Seq<Seq<char>> {
    json::json_list(payload, RULES_KEY@)->Ok_0->0.map_values(|i: (Seq<char>, Option<Seq<char>>)| i.0)
}

/// Whether the merger of payloads comes to the result: the items of all of them, in order, or
/// the error of the first payload that cannot be read.
pub open spec fn is_merger(p: Seq<Seq<char>>, r: Result<String, MergeError>) -> bool {
    match r {
        Ok(s) => (forall|i: int| 0 <= i < p.len() ==> payload_error(#[trigger] p[i]) is None) && s@
            == payload_of(all_items(p.map_values(|t: Seq<char>| items_of(t)), p.len() as int)),
        Err(e) => exists|i: int|
            0 <= i < p.len() && payload_error(#[trigger] p[i]) == Some(merge_error_text(e)) && forall|j: int|
                0 <= j < i ==> payload_error(#[trigger] p[j]) is None,
    }
}

/// The items of a list, each as JSON text.
pub open spec fn json_texts(items: Seq<(String, Option<String>)>) -> Seq<Seq<char>> {
    json::items_view(items).map_values(|i: (Seq<char>, Option<Seq<char>>)| i.0)
}

/// Appends items as JSON text.
fn append_items(to: &mut Vec<String>, items: &Vec<(String, Option<String>)>)
    ensures
        text::texts(final(to)@) == text::texts(old(to)@) + json_texts(items@),
{
    let ghost before = text::texts(to@);
    let ghost all = json_texts(items@);
    assert(before + all.take(0) =~= before);
    for i in 0..items.len()
        invariant
            all == json_texts(items@),
            text::texts(to@) == before + all.take(i as int),
    {
        let ghost done = text::texts(to@);
        to.push(items[i].0.clone());
        assert(all[i as int] == items@[i as int].0@);
        assert(text::texts(to@) =~= done.push(all[i as int]));
        assert(before + all.take(i as int + 1) =~= done.push(all[i as int]));
    }
    assert(all.take(items@.len() as int) =~= all);
}

/// The payload with the items of all the given payloads, in order. The first payload that
/// cannot be read decides the error.
pub fn merge_incremental_payloads(payloads: &Vec<String>) -> (r: Result<String, MergeError>)
    ensures
        is_merger(text::texts(payloads@), r),
{
    let ghost p = text::texts(payloads@);
    let ghost lists = p.map_values(|t: Seq<char>| items_of(t));
    let mut merged: Vec<String> = Vec::new();
    assert(text::texts(merged@) =~= Seq::<Seq<char>>::empty());
    for i in 0..payloads.len()
        invariant
            p == text::texts(payloads@),
            lists == p.map_values(|t: Seq<char>| items_of(t)),
            text::texts(merged@) == all_items(lists, i as int),
            forall|j: int| 0 <= j < i ==> payload_error(#[trigger] p[j]) is None,
    {
        assert(p[i as int] == payloads@[i as int]@);
        match read_list(payloads[i].as_str(), RULES_KEY) {
            Err(m) => {
                let e = MergeError::NotJson(m);
                assert(payload_error(p[i as int]) == Some(merge_error_text(e)));
                return Err(e);
            },
            Ok(None) => {
                let e = MergeError::NoRuleList;
                assert(payload_error(p[i as int]) == Some(merge_error_text(e)));
                return Err(e);
            },
            Ok(Some(items)) => {
                append_items(&mut merged, &items);
                assert(lists[i as int] == json_texts(items@));
            },
        }
    }
    Ok(payload_with(&merged))
}

/// The nodes, among the first `n`, that did not get both phases of the rules.
pub open spec fn failed_phases(results: Seq<(String, bool, bool)>, n: int) -> Seq<Seq<char>>
    decreases n,
{
    if n <= 0 {
        Seq::empty()
    } else {
        let rest = failed_phases(results, n - 1);
        if results[n - 1].1 && results[n - 1].2 {
            rest
        } else {
            rest.push(results[n - 1].0@)
        }
    }
}

/// The set with all the names.
pub open spec fn with_all(s: Set<Seq<char>>, names: Seq<Seq<char>>) -> Set<Seq<char>> {
    s.union(names.to_set())
}

/// The set without any of the names.
pub open spec fn without_all(s: Set<Seq<char>>, names: Seq<Seq<char>>) -> Set<Seq<char>> {
    s.difference(names.to_set())
}

/// Adds all names to a set.
pub fn record_all(set: &mut TextSet, names: &Vec<String>)
    ensures
        final(set)@ == with_all(old(set)@, text::texts(names@)),
{
    let ghost s0 = set@;
    let ghost t = text::texts(names@);
    for i in 0..names.len()
        invariant
            t == text::texts(names@),
            set@ == with_all(s0, t.take(i as int)),
    {
        set.insert(names[i].clone());
        proof {
            assert(t.take(i as int + 1) =~= t.take(i as int).push(t[i as int]));
            assert forall|x: Seq<char>| t.take(i as int).push(t[i as int]).contains(x) <==> t.take(
                i as int,
            ).contains(x) || x == t[i as int] by {
                let a = t.take(i as int);
                let b = a.push(t[i as int]);
                if a.contains(x) {
                    let k = choose|k: int| 0 <= k < a.len() && a[k] == x;
                    assert(b[k] == x);
                }
                assert(b[a.len() as int] == t[i as int]);
            }
            assert(set@ =~= with_all(s0, t.take(i as int + 1)));
        }
    }
    assert(t.take(names@.len() as int) =~= t);
    assert(with_all(s0, t.take(0)) =~= s0);
}

/// Removes all names from a set.
pub fn clear_all(set: &mut TextSet, names: &Vec<String>)
    ensures
        final(set)@ == without_all(old(set)@, text::texts(names@)),
{
    let ghost s0 = set@;
    let ghost t = text::texts(names@);
    for i in 0..names.len()
        invariant
            t == text::texts(names@),
            set@ == without_all(s0, t.take(i as int)),
    {
        set.remove(names[i].as_str());
        proof {
            assert(t.take(i as int + 1) =~= t.take(i as int).push(t[i as int]));
            assert forall|x: Seq<char>| t.take(i as int).push(t[i as int]).contains(x) <==> t.take(
                i as int,
            ).contains(x) || x == t[i as int] by {
                let a = t.take(i as int);
                let b = a.push(t[i as int]);
                if a.contains(x) {
                    let k = choose|k: int| 0 <= k < a.len() && a[k] == x;
                    assert(b[k] == x);
                }
                assert(b[a.len() as int] == t[i as int]);
            }
            assert(set@ =~= without_all(s0, t.take(i as int + 1)));
        }
    }
    assert(t.take(names@.len() as int) =~= t);
    assert(without_all(s0, t.take(0)) =~= s0);
}

/// The wait before rules are sent again: 300 ms for the first time, 600 ms and 900 ms for the
/// second and third; there is no fourth.
pub fn retry_delay(attempt: u64) -> (r: Option<u64>)
    requires
        attempt >= 1,
    ensures
        r == if attempt <= MAX_SEND_ATTEMPTS {
            Some((300 * attempt) as u64)
        } else {
            None
        },
{
    if attempt <= MAX_SEND_ATTEMPTS {
        Some(300 * attempt)
    } else {
        None
    }
}

/// The controller of packet filter rules: the queue, the texts of services and endpoints as
/// they were last sent, and the workers that missed rules.
pub struct NftablesController {
    pub queue: NftQueue,
    pub service_snapshots: Dict<(String, String)>,
    pub out_of_sync: TextSet,
    pub recent_failed: TextSet,
}

/// The texts of a service and its endpoints as they were last sent; empty when they never
/// were.
pub open spec fn snapshot_of(m: Map<Seq<char>, (String, String)>, key: Seq<char>) -> (
    Seq<char>,
    Seq<char>,
) {
    if m.contains_key(key) {
        (m[key].0@, m[key].1@)
    } else {
        (Seq::empty(), Seq::empty())
    }
}

/// The plan for a service that exists.
pub open spec fn plan_for(
    old_texts: (Seq<char>, Seq<char>),
    new_texts: (Seq<char>, Seq<char>),
    old_service: Option<ServiceTaskView>,
    new_service: ServiceTaskView,
) -> NftPlan {
    if old_texts == new_texts {
        NftPlan::Unchanged
    } else if old_texts.0.len() == 0 {
        NftPlan::FirstSeen
    } else {
        match old_service {
            None => NftPlan::Unreadable,
            Some(o) => if o.spec != new_service.spec {
                NftPlan::FullSync
            } else {
                NftPlan::EndpointDiff
            },
        }
    }
}

/// The text of the endpoints of a service; empty when it has none.
pub open spec fn endpoint_text(endpoints: Seq<(String, String)>, name: Seq<char>, from: int) -> Seq<
    char,
>
    decreases endpoints.len() - from,
{
    if from < 0 || from >= endpoints.len() {
        Seq::empty()
    } else if endpoints[from].0@ == name {
        endpoints[from].1@
    } else {
        endpoint_text(endpoints, name, from + 1)
    }
}

/// The texts that the snapshots hold.
pub open spec fn text_map(m: Map<Seq<char>, (String, String)>) -> Map<
    Seq<char>,
    (Seq<char>, Seq<char>),
> {
    m.map_values(|p: (String, String)| (p.0@, p.1@))
}

/// The texts after those of the first `n` services, with their endpoints, were noted.
pub open spec fn seeded(
    before: Map<Seq<char>, (Seq<char>, Seq<char>)>,
    services: Seq<(String, String)>,
    endpoints: Seq<(String, String)>,
    n: int,
) -> Map<Seq<char>, (Seq<char>, Seq<char>)>
    decreases n,
{
    if n <= 0 {
        before
    } else {
        seeded(before, services, endpoints, n - 1).insert(
            services[n - 1].0@,
            (services[n - 1].1@, endpoint_text(endpoints, services[n - 1].0@, 0)),
        )
    }
}

impl NftablesController {
    pub fn new() -> (r: Self)
        ensures
            r.service_snapshots@ == Map::<Seq<char>, (String, String)>::empty(),
            r.out_of_sync@ == Set::<Seq<char>>::empty(),
            r.recent_failed@ == Set::<Seq<char>>::empty(),
            r.queue@.queued == Set::<Seq<char>>::empty(),
            r.queue@.dirty == Set::<Seq<char>>::empty(),
            r.queue@.processing == Set::<Seq<char>>::empty(),
            r.queue@.attempts == Map::<Seq<char>, u32>::empty(),
    {
        NftablesController {
            queue: NftQueue::new(),
            service_snapshots: Dict::new(),
            out_of_sync: TextSet::new(),
            recent_failed: TextSet::new(),
        }
    }

    /// The texts of a service and its endpoints as they were last sent.
    pub fn snapshot(&self, key: &str) -> (r: (String, String))
        ensures
            (r.0@, r.1@) == snapshot_of(self.service_snapshots@, key@),
    {
        match self.service_snapshots.get(key) {
            Some(p) => (p.0.clone(), p.1.clone()),
            None => (String::new(), String::new()),
        }
    }

    /// What is to be done for a service that exists, from the texts of the service and its
    /// endpoints, and the service as it is and as it was last sent. A new spec calls for a
    /// full sync; an unchanged one for the difference of the endpoints.
    pub fn plan_service(
        &self,
        key: &str,
        service_text: &String,
        endpoint_text: &String,
        old_service: Option<&ServiceTask>,
        service: &ServiceTask,
    ) -> (r: NftPlan)
        ensures
            r == plan_for(
                snapshot_of(self.service_snapshots@, key@),
                (service_text@, endpoint_text@),
                match old_service {
                    Some(s) => Some(s.deep_view()),
                    None => None,
                },
                service.deep_view(),
            ),
    {
        let (old_s, old_e) = self.snapshot(key);
        if old_s == *service_text && old_e == *endpoint_text {
            return NftPlan::Unchanged;
        }
        if old_s.as_str().is_empty() {
            return NftPlan::FirstSeen;
        }
        match old_service {
            None => NftPlan::Unreadable,
            Some(o) => {
                if !o.spec.same(&service.spec) {
                    NftPlan::FullSync
                } else {
                    NftPlan::EndpointDiff
                }
            },
        }
    }

    /// The rules for a service were sent.
    pub fn service_sent(&mut self, key: String, service_text: String, endpoint_text: String)
        ensures
            final(self).service_snapshots@ == old(self).service_snapshots@.insert(
                key@,
                (service_text, endpoint_text),
            ),
            final(self).out_of_sync == old(self).out_of_sync,
            final(self).recent_failed == old(self).recent_failed,
            final(self).queue == old(self).queue,
    {
        self.service_snapshots.insert(key, (service_text, endpoint_text));
    }

    /// The rules of a deleted service were removed.
    pub fn service_removed(&mut self, key: &str)
        ensures
            final(self).service_snapshots@ == old(self).service_snapshots@.remove(key@),
            final(self).out_of_sync == old(self).out_of_sync,
            final(self).recent_failed == old(self).recent_failed,
            final(self).queue == old(self).queue,
    {
        self.service_snapshots.remove(key);
    }

    /// Notes the texts of all services, and of their endpoints, before all rules are sent.
    pub fn seed_snapshots(
        &mut self,
        services: &Vec<(String, String)>,
        endpoints: &Vec<(String, String)>,
    )
        ensures
            text_map(final(self).service_snapshots@) == seeded(
                text_map(old(self).service_snapshots@),
                services@,
                endpoints@,
                services@.len() as int,
            ),
            final(self).out_of_sync == old(self).out_of_sync,
            final(self).recent_failed == old(self).recent_failed,
            final(self).queue == old(self).queue,
    {
        let ghost m0 = text_map(self.service_snapshots@);
        for i in 0..services.len()
            invariant
                m0 == text_map(old(self).service_snapshots@),
                self.out_of_sync == old(self).out_of_sync,
                self.recent_failed == old(self).recent_failed,
                self.queue == old(self).queue,
                text_map(self.service_snapshots@) == seeded(m0, services@, endpoints@, i as int),
        {
            let ghost mid = self.service_snapshots@;
            let name = services[i].0.clone();
            let e = find_endpoint_text(endpoints, name.as_str());
            let t = services[i].1.clone();
            let ghost tv = (t@, e@);
            self.service_snapshots.insert(name, (t, e));
            assert(text_map(self.service_snapshots@) =~= text_map(mid).insert(
                services@[i as int].0@,
                tv,
            ));
        }
    }

    /// The workers that did not get both phases of the rules. They are noted as out of sync.
    pub fn two_phase_results(&mut self, results: &Vec<(String, bool, bool)>) -> (r: Vec<String>)
        ensures
            text::texts(r@) == failed_phases(results@, results@.len() as int),
            final(self).out_of_sync@ == with_all(old(self).out_of_sync@, text::texts(r@)),
            final(self).service_snapshots == old(self).service_snapshots,
            final(self).recent_failed == old(self).recent_failed,
            final(self).queue == old(self).queue,
    {
        let mut failed: Vec<String> = Vec::new();
        assert(text::texts(failed@) =~= Seq::<Seq<char>>::empty());
        for i in 0..results.len()
            invariant
                text::texts(failed@) == failed_phases(results@, i as int),
        {
            if !(results[i].1 && results[i].2) {
                let ghost before = text::texts(failed@);
                failed.push(results[i].0.clone());
                assert(text::texts(failed@) =~= before.push(results@[i as int].0@));
            }
        }
        record_all(&mut self.out_of_sync, &failed);
        failed
    }

    /// Notes the workers that missed an incremental update. The result says whether none did.
    pub fn incremental_results(&mut self, failed: &Vec<String>) -> (r: bool)
        ensures
            r == (failed@.len() == 0),
            final(self).out_of_sync@ == with_all(old(self).out_of_sync@, text::texts(failed@)),
            final(self).service_snapshots == old(self).service_snapshots,
            final(self).recent_failed == old(self).recent_failed,
            final(self).queue == old(self).queue,
    {
        record_all(&mut self.out_of_sync, failed);
        failed.len() == 0
    }

    /// Notes the workers that missed a message. The result says whether none did.
    pub fn message_results(&mut self, failed: &Vec<String>) -> (r: bool)
        ensures
            r == (failed@.len() == 0),
            final(self).recent_failed@ == with_all(
                old(self).recent_failed@,
                text::texts(failed@),
            ),
            final(self).service_snapshots == old(self).service_snapshots,
            final(self).out_of_sync == old(self).out_of_sync,
            final(self).queue == old(self).queue,
    {
        record_all(&mut self.recent_failed, failed);
        failed.len() == 0
    }

    /// Workers got, at a later attempt, all rules that they had missed.
    pub fn two_phase_recovered(&mut self, pending: &mut TextSet, recovered: &Vec<String>)
        ensures
            final(self).out_of_sync@ == without_all(
                old(self).out_of_sync@,
                text::texts(recovered@),
            ),
            final(pending)@ == without_all(old(pending)@, text::texts(recovered@)),
            final(self).service_snapshots == old(self).service_snapshots,
            final(self).recent_failed == old(self).recent_failed,
            final(self).queue == old(self).queue,
    {
        clear_all(&mut self.out_of_sync, recovered);
        clear_all(pending, recovered);
    }

    /// Workers got, at a later attempt, the message that they had missed.
    pub fn message_recovered(&mut self, recovered: &Vec<String>)
        ensures
            final(self).recent_failed@ == without_all(
                old(self).recent_failed@,
                text::texts(recovered@),
            ),
            final(self).service_snapshots == old(self).service_snapshots,
            final(self).out_of_sync == old(self).out_of_sync,
            final(self).queue == old(self).queue,
    {
        clear_all(&mut self.recent_failed, recovered);
    }

    /// The kinds of objects that the controller watches.
    pub fn watch_resources() -> (r: Vec<ResourceKind>)
        ensures
            r@ == seq![ResourceKind::Service, ResourceKind::Endpoint],
    {
        let mut v: Vec<ResourceKind> = Vec::new();
        v.push(ResourceKind::Service);
        v.push(ResourceKind::Endpoint);
        v
    }
}

fn find_endpoint_text(endpoints: &Vec<(String, String)>, name: &str) -> (r: String)
    ensures
        r@ == endpoint_text(endpoints@, name@, 0),
{
    let mut i: usize = 0;
    while i < endpoints.len()
        invariant
            i <= endpoints@.len(),
            endpoint_text(endpoints@, name@, 0) == endpoint_text(endpoints@, name@, i as int),
        decreases endpoints@.len() - i,
    {
        if str_eq(endpoints[i].0.as_str(), name) {
            return endpoints[i].1.clone();
        }
        i = i + 1;
    }
    String::new()
}

/// Endpoints of a service without addresses.
pub open spec fn empty_endpoint(svc: ServiceTaskView) -> EndpointView {
    EndpointView {
        api_version: "v1"@,
        kind: "Endpoints"@,
        metadata: svc.metadata,
        subsets: Seq::empty(),
    }
}

/// Endpoints of a service without addresses.
pub fn empty_endpoint_for_service(svc: &ServiceTask) -> (r: Endpoint)
    ensures
        r.deep_view() == empty_endpoint(svc.deep_view()),
{
    let subsets: Vec<EndpointSubset> = Vec::new();
    assert(subsets.deep_view() =~= Seq::<EndpointSubsetView>::empty());
    Endpoint {
        api_version: "v1".to_owned(),
        kind: "Endpoints".to_owned(),
        metadata: svc.metadata.copy(),
        subsets,
    }
}

/// Whether two services have one identity.
pub fn same_service_identity(a: &ServiceTask, b: &ServiceTask) -> (r: bool)
    ensures
        r == same_identity(a.deep_view(), b.deep_view()),
{
    str_eq(a.metadata.namespace.as_str(), b.metadata.namespace.as_str()) && str_eq(
        a.metadata.name.as_str(),
        b.metadata.name.as_str(),
    )
}

/// The services as they were before one of them was first seen.
pub fn services_without(services: &Vec<ServiceTask>, svc: &ServiceTask) -> (r: Vec<ServiceTask>)
    ensures
        r.deep_view() == services.deep_view().filter(other_service(svc.deep_view())),
{
    let ghost all = services.deep_view();
    let ghost p = other_service(svc.deep_view());
    let mut out: Vec<ServiceTask> = Vec::new();
    proof {
        seqs::lemma_filter_none(all, p);
        assert(out.deep_view() =~= Seq::<ServiceTaskView>::empty());
    }
    for i in 0..services.len()
        invariant
            all == services.deep_view(),
            p == other_service(svc.deep_view()),
            out.deep_view() == all.take(i as int).filter(p),
    {
        proof {
            seqs::lemma_filter_take(all, p, i as int);
            assert(all[i as int] == services@[i as int].deep_view());
        }
        if !same_service_identity(&services[i], svc) {
            let ghost before = out.deep_view();
            let c = services[i].copy();
            let ghost cv = c.deep_view();
            out.push(c);
            assert(out.deep_view() =~= before.push(cv));
        }
    }
    out
}

/// The services as they were before one of them was deleted.
pub open spec fn with_service(s: Seq<ServiceTaskView>, svc: ServiceTaskView) -> Seq<
    ServiceTaskView,
> {
    if is_among(s, svc) {
        s
    } else {
        s.push(svc)
    }
}

/// The services as they were before one of them was deleted.
pub fn services_with(services: &Vec<ServiceTask>, svc: &ServiceTask) -> (r: Vec<ServiceTask>)
    ensures
        r.deep_view() == with_service(services.deep_view(), svc.deep_view()),
{
    let ghost all = services.deep_view();
    let mut out = services.copy();
    let mut found = false;
    for i in 0..services.len()
        invariant
            all == services.deep_view(),
            found == exists|j: int| 0 <= j < i && same_identity(#[trigger] all[j], svc.deep_view()),
    {
        assert(all[i as int] == services@[i as int].deep_view());
        if same_service_identity(&services[i], svc) {
            found = true;
            assert(same_identity(all[i as int], svc.deep_view()));
        }
    }
    if !found {
        let c = svc.copy();
        let ghost cv = c.deep_view();
        out.push(c);
        assert(out.deep_view() =~= all.push(cv));
    }
    out
}

/// A service whose rules were sent, and that did not change since, calls for nothing.
pub proof fn law_sent_service_is_unchanged(
    m: Map<Seq<char>, (String, String)>,
    key: Seq<char>,
    service_text: String,
    endpoint_text: String,
    old_service: Option<ServiceTaskView>,
    service: ServiceTaskView,
)
    ensures
        plan_for(
            snapshot_of(m.insert(key, (service_text, endpoint_text)), key),
            (service_text@, endpoint_text@),
            old_service,
            service,
        ) == NftPlan::Unchanged,
{
}

/// A service that was never sent is first seen.
pub proof fn law_unknown_service_is_first_seen(
    m: Map<Seq<char>, (String, String)>,
    key: Seq<char>,
    new_texts: (Seq<char>, Seq<char>),
    service: ServiceTaskView,
)
    requires
        !m.contains_key(key),
        new_texts.0.len() > 0,
    ensures
        plan_for(snapshot_of(m, key), new_texts, None, service) == NftPlan::FirstSeen,
{
}

/// Workers that were noted as failed and then recovered are no longer noted; others stay.
pub proof fn law_recovery_undoes_recording(s: Set<Seq<char>>, names: Seq<Seq<char>>, x: Seq<char>)
    ensures
        names.contains(x) ==> !without_all(with_all(s, names), names).contains(x),
        !names.contains(x) ==> without_all(with_all(s, names), names).contains(x) == s.contains(x),
{
}

/// A change comes to work once: a key that waits or is worked on is not queued a second time. One
/// that changes while it is worked on is noted, and no key is lost.
pub proof fn law_changed_key_comes_to_work(q: &mut NftQueue, key: String, r: bool, other: Seq<char>)
    requires
        call_ensures(NftQueue::schedule_enqueue, (q, &key), r),
    ensures
        r <==> !old(q).queued@.contains(key@) && !old(q).processing@.contains(key@),
        final(q).queued@.contains(key@) || (final(q).processing@.contains(key@)
            && final(q).dirty@.contains(key@)),
        final(q).processing@ == old(q).processing@,
        other != key@ ==> (final(q).queued@.contains(other) <==> old(q).queued@.contains(other)),
        other != key@ ==> (final(q).dirty@.contains(other) <==> old(q).dirty@.contains(other)),
{
    assert(final(q)@.processing == final(q).processing@);
    assert(final(q)@.queued == final(q).queued@);
    assert(final(q)@.dirty == final(q).dirty@);
}

/// Work on a key begins when it leaves the queue, and ends when it is set free; what changed
/// meanwhile is queued again. Work that failed is tried again a limited number of times.
pub proof fn law_work_on_a_key_begins_and_ends(
    q: &mut NftQueue,
    p: &mut NftQueue,
    key: String,
    ok: bool,
    r: NftFinished,
)
    requires
        call_ensures(NftQueue::start, (q, &key), ()),
        call_ensures(NftQueue::finish, (p, &key, ok), r),
        p.attempts@.contains_key(key@) ==> p.attempts@[key@] < u32::MAX,
    ensures
        final(q).processing@.contains(key@) && !final(q).queued@.contains(key@),
        !final(p).processing@.contains(key@) && !final(p).dirty@.contains(key@),
        old(p).dirty@.contains(key@) ==> final(p).queued@.contains(key@),
        r.requeue <==> old(p).dirty@.contains(key@) && !old(p).queued@.contains(key@),
        ok ==> r.retry_after is None && !final(p).attempts@.contains_key(key@),
        !ok && !old(p).attempts@.contains_key(key@) ==> r.retry_after is Some,
        !ok && old(p).attempts@.contains_key(key@) ==> (r.retry_after is Some <==> old(
            p).attempts@[key@] < 15),
        !ok && old(p).attempts@.contains_key(key@) && old(p).attempts@[key@] < 15 && !old(
            p).dirty@.contains(key@) ==> final(p).attempts@.contains_key(key@)
            && final(p).attempts@[key@] == old(p).attempts@[key@] + 1,
{
    assert(final(q)@.processing == final(q).processing@);
    assert(final(q)@.queued == final(q).queued@);
    assert(final(p)@.processing == final(p).processing@);
    assert(final(p)@.dirty == final(p).dirty@);
    assert(final(p)@.queued == final(p).queued@);
    assert(final(p)@.attempts == final(p).attempts@);
    assert(old(p)@.attempts == old(p).attempts@);
}

/// What was sent already is not sent again. A service that was never sent is new; one whose
/// specification changed has everything set anew, and otherwise only the difference of its
/// endpoints is sent.
pub proof fn law_plan_is_by_what_was_sent(
    c: NftablesController,
    key: &str,
    service_text: String,
    endpoint_text: String,
    old_service: ServiceTask,
    service: ServiceTask,
    sent: (String, String),
    r: NftPlan,
    unread: NftPlan,
)
    requires
        call_ensures(NftablesController::snapshot, (&c, key), sent),
        call_ensures(
            NftablesController::plan_service,
            (&c, key, &service_text, &endpoint_text, Some(&old_service), &service),
            r,
        ),
        call_ensures(
            NftablesController::plan_service,
            (&c, key, &service_text, &endpoint_text, None::<&ServiceTask>, &service),
            unread,
        ),
    ensures
        c.service_snapshots@.contains_key(key@) ==> sent.0@ == c.service_snapshots@[key@].0@
            && sent.1@ == c.service_snapshots@[key@].1@,
        !c.service_snapshots@.contains_key(key@) ==> sent.0@.len() == 0 && sent.1@.len() == 0,
        r == NftPlan::Unchanged <==> sent.0@ == service_text@ && sent.1@ == endpoint_text@,
        r == NftPlan::FirstSeen <==> r != NftPlan::Unchanged && sent.0@.len() == 0,
        r == NftPlan::FullSync <==> r != NftPlan::Unchanged && sent.0@.len() > 0
            && old_service.spec.deep_view() != service.spec.deep_view(),
        r == NftPlan::EndpointDiff <==> r != NftPlan::Unchanged && sent.0@.len() > 0
            && old_service.spec.deep_view() == service.spec.deep_view(),
        unread == NftPlan::Unreadable <==> r != NftPlan::Unchanged && sent.0@.len() > 0,
{
}

/// What was sent of a service is noted, and what was noted of the others stays; a removed service
/// is forgotten.
pub proof fn law_sent_services_are_noted(
    c: &mut NftablesController,
    d: &mut NftablesController,
    key: String,
    gone: &str,
    service_text: String,
    endpoint_text: String,
    other: Seq<char>,
)
    requires
        call_ensures(
            NftablesController::service_sent,
            (c, key, service_text, endpoint_text),
            (),
        ),
        call_ensures(NftablesController::service_removed, (d, gone), ()),
    ensures
        final(c).service_snapshots@.contains_key(key@),
        final(c).service_snapshots@[key@] == (service_text, endpoint_text),
        other != key@ && old(c).service_snapshots@.contains_key(other) ==> final(
            c).service_snapshots@.contains_key(other) && final(c).service_snapshots@[other] == old(
            c).service_snapshots@[other],
        !final(d).service_snapshots@.contains_key(gone@),
        other != gone@ && old(d).service_snapshots@.contains_key(other) ==> final(
            d).service_snapshots@.contains_key(other) && final(d).service_snapshots@[other] == old(
            d).service_snapshots@[other],
{
}

proof fn lemma_failed_phases(results: Seq<(String, bool, bool)>, n: int, node: Seq<char>)
    requires
        0 <= n <= results.len(),
    ensures
        failed_phases(results, n).contains(node) <==> exists|k: int|
            0 <= k < n && (#[trigger] results[k]).0@ == node && !(results[k].1 && results[k].2),
    decreases n,
{
    broadcast use vstd::seq_lib::group_seq_properties;

    if n > 0 {
        lemma_failed_phases(results, n - 1, node);
    }
}

/// A node that could not take both parts of the rules is out of sync, and is tried again; one that
/// took both is not. No node gets in sync by it.
pub proof fn law_failed_nodes_are_out_of_sync(
    c: &mut NftablesController,
    results: Vec<(String, bool, bool)>,
    r: Vec<String>,
    node: Seq<char>,
)
    requires
        call_ensures(NftablesController::two_phase_results, (c, &results), r),
    ensures
        ({
            let failed = exists|k: int|
                0 <= k < results@.len() && (#[trigger] results@[k]).0@ == node && !(results@[k].1
                    && results@[k].2);
            &&& text::texts(r@).contains(node) <==> failed
            &&& final(c).out_of_sync@.contains(node) <==> old(c).out_of_sync@.contains(node)
                || failed
        }),
{
    lemma_failed_phases(results@, results@.len() as int, node);
    let t = text::texts(r@);
    assert(t.to_set().contains(node) <==> t.contains(node));
}

/// Nodes that a message did not reach are noted, and those that it reached at last are not noted
/// any more.
pub proof fn law_unreached_nodes_are_noted(
    c: &mut NftablesController,
    d: &mut NftablesController,
    failed: Vec<String>,
    ok: bool,
    recovered: Vec<String>,
    node: Seq<char>,
)
    requires
        call_ensures(NftablesController::message_results, (c, &failed), ok),
        call_ensures(NftablesController::message_recovered, (d, &recovered), ()),
    ensures
        ok <==> failed@.len() == 0,
        final(c).recent_failed@.contains(node) <==> old(c).recent_failed@.contains(node)
            || text::texts(failed@).contains(node),
        final(d).recent_failed@.contains(node) <==> old(d).recent_failed@.contains(node)
            && !text::texts(recovered@).contains(node),
{
    let t = text::texts(failed@);
    assert(t.to_set().contains(node) <==> t.contains(node));
    let u = text::texts(recovered@);
    assert(u.to_set().contains(node) <==> u.contains(node));
}

/// Sending is tried three times, each time after a longer wait.
pub proof fn law_waits_for_sending_grow(a: u64, b: u64, x: Option<u64>, y: Option<u64>)
    requires
        1 <= a < b,
        call_ensures(retry_delay, (a,), x),
        call_ensures(retry_delay, (b,), y),
    ensures
        x is Some <==> a <= 3,
        y is Some ==> x is Some && x->0 < y->0,
        a == 1 ==> x == Some(300u64),
        x is Some && y is Some ==> y->0 - x->0 == 300 * (b - a),
{
}

/// The services without one are all the others, in their order; with one, they are all that were
/// there, and it is among them.
pub proof fn law_services_with_and_without_one(
    services: Vec<ServiceTask>,
    svc: ServiceTask,
    with: Vec<ServiceTask>,
    without: Vec<ServiceTask>,
    x: ServiceTaskView,
)
    requires
        call_ensures(services_with, (&services, &svc), with),
        call_ensures(services_without, (&services, &svc), without),
    ensures
        ({
            let b = svc.deep_view();
            let same = x.metadata.namespace == b.metadata.namespace && x.metadata.name
                == b.metadata.name;
            &&& without.deep_view().contains(x) <==> services.deep_view().contains(x) && !same
            &&& services.deep_view().contains(x) ==> with.deep_view().contains(x)
            &&& with.deep_view().contains(x) ==> services.deep_view().contains(x) || x == b
            &&& exists|i: int|
                0 <= i < with.deep_view().len() && (#[trigger] with.deep_view()[i]).metadata.name
                    == b.metadata.name && with.deep_view()[i].metadata.namespace
                    == b.metadata.namespace
        }),
{
    let s = services.deep_view();
    let b = svc.deep_view();
    seqs::lemma_filter_members(s, other_service(b));
    let w = with.deep_view();
    if is_among(s, b) {
        let i = choose|i: int| 0 <= i < s.len() && same_identity(#[trigger] s[i], b);
        assert(w[i] == s[i]);
    } else {
        assert(w[w.len() - 1] == b);
        if s.contains(x) {
            let k = choose|k: int| 0 <= k < s.len() && s[k] == x;
            assert(w[k] == x);
        }
    }
}

/// A service without endpoints has an empty list of its own.
pub proof fn law_missing_endpoints_are_empty(svc: ServiceTask, r: Endpoint)
    requires
        call_ensures(empty_endpoint_for_service, (&svc,), r),
    ensures
        r.subsets@.len() == 0,
        r.metadata.deep_view() == svc.metadata.deep_view(),
{
    assert(r.subsets.deep_view().len() == r.subsets@.len());
}

proof fn lemma_all_items(lists: Seq<Seq<Seq<char>>>, n: int, x: Seq<char>)
    requires
        0 <= n <= lists.len(),
    ensures
        all_items(lists, n).contains(x) <==> exists|i: int|
            0 <= i < n && (#[trigger] lists[i]).contains(x),
    decreases n,
{
    broadcast use vstd::seq_lib::group_seq_properties;

    if n > 0 {
        lemma_all_items(lists, n - 1, x);
    }
}

/// Payloads are merged when each can be read and has a list of rules; the rules of the merged one
/// are those of all of them, and no others.
pub proof fn law_merged_payload_has_all_rules(
    payloads: Vec<String>,
    r: Result<String, MergeError>,
    rule: Seq<char>,
)
    requires
        call_ensures(merge_incremental_payloads, (&payloads,), r),
    ensures
        r is Ok <==> forall|i: int|
            0 <= i < payloads@.len() ==> {
                let read = json::json_list((#[trigger] payloads@[i])@, "nftables"@);
                read is Ok && read->Ok_0 is Some
            },
        r matches Ok(s) ==> exists|rules: Seq<Seq<char>>|
            s@ == "{\"nftables\":["@ + #[trigger] joined(rules) + "]}"@ && (rules.contains(rule)
                <==> exists|i: int|
                0 <= i < payloads@.len() && items_of((#[trigger] payloads@[i])@).contains(rule)),
{
    let p = text::texts(payloads@);
    assert(forall|i: int| 0 <= i < p.len() ==> #[trigger] p[i] == payloads@[i]@);
    assert forall|i: int| 0 <= i < payloads@.len() implies (payload_error(p[i]) is None <==> {
        let read = json::json_list((#[trigger] payloads@[i])@, "nftables"@);
        read is Ok && read->Ok_0 is Some
    }) by {}
    if let Ok(s) = r {
        let lists = p.map_values(|t: Seq<char>| items_of(t));
        let n = p.len() as int;
        let rules = all_items(lists, n);
        lemma_all_items(lists, n, rule);
        assert forall|i: int| 0 <= i < payloads@.len() implies {
            let read = json::json_list((#[trigger] payloads@[i])@, "nftables"@);
            read is Ok && read->Ok_0 is Some
        } by {
            assert(payload_error(p[i]) is None);
        }
        if rules.contains(rule) {
            let i = choose|i: int| 0 <= i < n && (#[trigger] lists[i]).contains(rule);
            assert(items_of(payloads@[i]@).contains(rule));
        }
        if exists|i: int|
            0 <= i < payloads@.len() && items_of((#[trigger] payloads@[i])@).contains(rule) {
            let i = choose|i: int|
                0 <= i < payloads@.len() && items_of((#[trigger] payloads@[i])@).contains(rule);
            assert(lists[i] == items_of(p[i]));
        }
        assert(s@ == "{\"nftables\":["@ + joined(rules) + "]}"@);
    }
    if let Err(e) = r {
        let i = choose|i: int|
            0 <= i < p.len() && payload_error(#[trigger] p[i]) == Some(merge_error_text(e))
                && forall|j: int| 0 <= j < i ==> payload_error(#[trigger] p[j]) is None;
        assert(payload_error(p[i]) is Some);
        assert(p[i] == payloads@[i]@);
    }
}

proof fn lemma_seeded(
    before: Map<Seq<char>, (Seq<char>, Seq<char>)>,
    services: Seq<(String, String)>,
    endpoints: Seq<(String, String)>,
    n: int,
    key: Seq<char>,
)
    requires
        0 <= n <= services.len(),
    ensures
        (exists|i: int| 0 <= i < n && (#[trigger] services[i]).0@ == key) ==> seeded(
            before,
            services,
            endpoints,
            n,
        ).contains_key(key) && exists|i: int|
            0 <= i < n && (#[trigger] services[i]).0@ == key && seeded(
                before,
                services,
                endpoints,
                n,
            )[key].0 == services[i].1@,
        !(exists|i: int| 0 <= i < n && (#[trigger] services[i]).0@ == key) ==> (seeded(
            before,
            services,
            endpoints,
            n,
        ).contains_key(key) <==> before.contains_key(key)),
    decreases n,
{
    if n > 0 {
        lemma_seeded(before, services, endpoints, n - 1, key);
    }
}

/// A service that is there at the start is noted with its text, and no service is noted that is
/// not there and was not before.
pub proof fn law_services_at_the_start_are_noted(
    c: &mut NftablesController,
    services: Vec<(String, String)>,
    endpoints: Vec<(String, String)>,
    key: Seq<char>,
)
    requires
        call_ensures(NftablesController::seed_snapshots, (c, &services, &endpoints), ()),
    ensures
        (exists|i: int| 0 <= i < services@.len() && (#[trigger] services@[i]).0@ == key) ==> final(
            c).service_snapshots@.contains_key(key) && exists|i: int|
            0 <= i < services@.len() && (#[trigger] services@[i]).0@ == key
                && final(c).service_snapshots@[key].0@ == services@[i].1@,
        !(exists|i: int| 0 <= i < services@.len() && (#[trigger] services@[i]).0@ == key) ==> (final(
            c).service_snapshots@.contains_key(key) <==> old(c).service_snapshots@.contains_key(key)),
{
    let n = services@.len() as int;
    lemma_seeded(text_map(old(c).service_snapshots@), services@, endpoints@, n, key);
    let after = text_map(final(c).service_snapshots@);
    assert(after.contains_key(key) <==> final(c).service_snapshots@.contains_key(key));
    assert(text_map(old(c).service_snapshots@).contains_key(key) <==> old(
        c).service_snapshots@.contains_key(key));
}

} // verus!

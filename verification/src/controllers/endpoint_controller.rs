//! Keeps the endpoints of services in step with the pods that the services select.
use vstd::prelude::*;
use crate::controllers::manager;
use crate::controllers::manager::Change;
use crate::controllers::selector;
use crate::controllers::selector::{is_empty_selector, labels_match};
use crate::protocol::dict::{Dict, TextSet};
use crate::protocol::meta;
use crate::protocol::meta::{ObjectMeta, ResourceKind};
use crate::protocol::pod::PodTask;
use crate::protocol::service::{
    Endpoint, EndpointAddress, EndpointAddressView, EndpointPort, EndpointPortView, EndpointSubset,
    EndpointSubsetView, EndpointView, ServicePort, ServicePortView, ServiceTask, TargetReference,
    TargetReferenceView,
};
use crate::protocol::value::Value;
use crate::protocol::workload::LabelSelector;
use crate::text::str_eq;

verus! {

/// The wait after a change of a service, in milliseconds.
pub const SERVICE_DELAY_MS: u64 = 0;

/// The wait after a change of a pod, in milliseconds.
pub const POD_DELAY_MS: u64 = 200;

/// The number of failures in a row after which a service is given up.
pub const MAX_RETRIES: u32 = 15;

/// The longest wait before a failed service is worked on again, in milliseconds.
pub const MAX_RETRY_WAIT_MS: u64 = 30_000;

/// Which services are to be worked on, wait in the queue, and are being worked on.
pub struct WorkQueue {
    pub queued: TextSet,
    pub dirty: TextSet,
    pub processing: TextSet,
    pub attempts: Dict<u32>,
}

/// The contents of the work queue.
pub struct WorkQueueView {
    pub queued: Set<Seq<char>>,
    pub dirty: Set<Seq<char>>,
    pub processing: Set<Seq<char>>,
    pub attempts: Map<Seq<char>, u32>,
}

impl View for WorkQueue {
    type V = WorkQueueView;

    open spec fn view(&self) -> WorkQueueView {
        WorkQueueView {
            queued: self.queued@,
            dirty: self.dirty@,
            processing: self.processing@,
            attempts: self.attempts@,
        }
    }
}

/// How the work on a service ended.
#[derive(Debug, Clone, Copy, PartialEq, Eq, Structural)]
pub struct Finished {
    /// The wait before the service goes back to the queue after a failure, in milliseconds.
    pub retry_after: Option<u64>,
    /// Whether the service changed while it was worked on.
    pub was_dirty: bool,
    /// Whether the service is to be sent to the queue at once, on account of that.
    pub requeue: bool,
}

/// The number of failures in a row of a service.
pub open spec fn failures(q: WorkQueueView, key: Seq<char>) -> int {
    if q.attempts.contains_key(key) {
        q.attempts[key] as int
    } else {
        0
    }
}

/// The wait after the given number of failures: 200 ms, doubled for each, up to the limit.
pub open spec fn retry_wait(count: nat) -> int {
    let w = 200 * manager::power_of_two(count);
    if w <= MAX_RETRY_WAIT_MS {
        w as int
    } else {
        MAX_RETRY_WAIT_MS as int
    }
}

impl WorkQueueView {
    /// The queue after a change of a service was noted.
    pub open spec fn noted(self, key: Seq<char>) -> WorkQueueView {
        WorkQueueView { dirty: self.dirty.insert(key), ..self }
    }

    /// The queue after the wait for a service is over.
    pub open spec fn due(self, key: Seq<char>) -> WorkQueueView {
        if self.processing.contains(key) {
            self
        } else {
            WorkQueueView { queued: self.queued.insert(key), ..self }
        }
    }

    /// The queue after the work on a service starts.
    pub open spec fn started(self, key: Seq<char>) -> WorkQueueView {
        WorkQueueView {
            queued: self.queued.remove(key),
            processing: self.processing.insert(key),
            dirty: self.dirty.remove(key),
            ..self
        }
    }

    /// The queue after the work on a service ended. A service that changed meanwhile waits there
    /// again.
    pub open spec fn finished(self, key: Seq<char>, ok: bool) -> WorkQueueView {
        WorkQueueView {
            queued: if self.dirty.contains(key) {
                self.queued.insert(key)
            } else {
                self.queued
            },
            processing: self.processing.remove(key),
            dirty: self.dirty.remove(key),
            attempts: if ok || self.dirty.contains(key) {
                self.attempts.remove(key)
            } else {
                self.attempts.insert(key, (failures(self, key) + 1) as u32)
            },
        }
    }
}

impl WorkQueue {
    pub fn new() -> (r: Self)
        ensures
            r@.queued == Set::<Seq<char>>::empty(),
            r@.dirty == Set::<Seq<char>>::empty(),
            r@.processing == Set::<Seq<char>>::empty(),
            r@.attempts == Map::<Seq<char>, u32>::empty(),
    {
        WorkQueue {
            queued: TextSet::new(),
            dirty: TextSet::new(),
            processing: TextSet::new(),
            attempts: Dict::new(),
        }
    }

    /// Notes that a service needs work. The result says whether a wait is to be started: a
    /// service that was noted already is not noted twice.
    pub fn schedule_enqueue(&mut self, key: &String) -> (r: bool)
        ensures
            r == !old(self)@.dirty.contains(key@),
            final(self)@ == old(self)@.noted(key@),
    {
        self.dirty.insert(key.clone())
    }

    /// The wait for a service is over. The result says whether it is to be sent to the
    /// queue: not while it is being worked on, and not when it waits there already.
    pub fn timer_fired(&mut self, key: &String) -> (r: bool)
        ensures
            r == (!old(self)@.processing.contains(key@) && !old(self)@.queued.contains(key@)),
            final(self)@ == old(self)@.due(key@),
    {
        if self.processing.contains(key.as_str()) {
            return false;
        }
        if self.queued.contains(key.as_str()) {
            assert(self.queued@.insert(key@) =~= self.queued@);
            return false;
        }
        self.queued.insert(key.clone());
        true
    }

    /// The work on a service starts.
    pub fn start(&mut self, key: &String)
        ensures
            final(self)@ == old(self)@.started(key@),
    {
        self.queued.remove(key.as_str());
        self.processing.insert(key.clone());
        self.dirty.remove(key.as_str());
    }

    /// The work on a service ended. After a failure the service is tried again later, unless
    /// it failed too often. A change that came meanwhile resets the count of failures, and sends
    /// the service to the queue again.
    pub fn finish(&mut self, key: &String, ok: bool) -> (r: Finished)
        requires
            failures(old(self)@, key@) < u32::MAX,
        ensures
            final(self)@ == old(self)@.finished(key@, ok),
            r.was_dirty == old(self)@.dirty.contains(key@),
            r.requeue == (r.was_dirty && !old(self)@.queued.contains(key@)),
            ({
                let count = failures(old(self)@, key@) + 1;
                r.retry_after == if !ok && count <= MAX_RETRIES {
                    Some(retry_wait(count as nat) as u64)
                } else {
                    None
                }
            }),
    {
        let ghost q0 = self@;
        let mut retry_after: Option<u64> = None;
        if ok {
            self.attempts.remove(key.as_str());
        } else {
            let count: u32 = match self.attempts.get(key.as_str()) {
                Some(n) => *n + 1,
                None => 1,
            };
            self.attempts.insert(key.clone(), count);
            if count <= MAX_RETRIES {
                retry_after = Some(wait_after(count));
            }
        }
        self.processing.remove(key.as_str());
        let was_dirty = self.dirty.remove(key.as_str());
        let mut requeue = false;
        if was_dirty {
            self.attempts.remove(key.as_str());
            requeue = self.queued.insert(key.clone());
        }
        assert(self.attempts@ =~= q0.finished(key@, ok).attempts);
        Finished { retry_after, was_dirty, requeue }
    }
}

proof fn lemma_power_grows(a: nat, b: nat)
    requires
        a <= b,
    ensures
        manager::power_of_two(a) <= manager::power_of_two(b),
        manager::power_of_two(a) >= 1,
    decreases b,
{
    if a < b {
        lemma_power_grows(a, (b - 1) as nat);
    } else if a > 0 {
        lemma_power_grows((a - 1) as nat, (a - 1) as nat);
    }
}

/// The wait after the given number of failures, in milliseconds.
pub fn wait_after(count: u32) -> (r: u64)
    requires
        count <= MAX_RETRIES,
    ensures
        r == retry_wait(count as nat),
{
    let mut w: u64 = 200;
    let mut i: u32 = 0;
    while i < count && w < MAX_RETRY_WAIT_MS
        invariant
            i <= count,
            w <= 2 * MAX_RETRY_WAIT_MS,
            w == 200 * manager::power_of_two(i as nat),
        decreases count - i,
    {
        w = w * 2;
        i = i + 1;
    }
    proof {
        lemma_power_grows(i as nat, count as nat);
    }
    if w <= MAX_RETRY_WAIT_MS {
        w
    } else {
        MAX_RETRY_WAIT_MS
    }
}

/// A service that was noted and not worked on since is not noted again.
pub proof fn law_noting_twice_is_noting_once(q: WorkQueueView, key: Seq<char>)
    ensures
        q.noted(key).dirty.contains(key),
        q.noted(key).noted(key) == q.noted(key),
{
    assert(q.noted(key).noted(key).dirty =~= q.noted(key).dirty);
}

/// A change that comes while a service is worked on is not lost: the service stays noted
/// until the work ends, and then it waits in the queue again, with no failures counted.
pub proof fn law_changes_during_work_are_requeued(q: WorkQueueView, key: Seq<char>, ok: bool)
    ensures
        ({
            let changed = q.started(key).noted(key);
            let ended = changed.finished(key, ok);
            &&& !q.started(key).dirty.contains(key)
            &&& !q.started(key).queued.contains(key)
            &&& changed.processing.contains(key)
            &&& changed.due(key) == changed
            &&& changed.dirty.contains(key)
            &&& ended.queued.contains(key)
            &&& !ended.processing.contains(key)
            &&& !ended.dirty.contains(key)
            &&& failures(ended, key) == 0
        }),
{
}

/// Waits after failures lie within their bounds and never shrink.
pub proof fn law_retry_waits_are_bounded(count: nat)
    requires
        count >= 1,
    ensures
        400 <= retry_wait(count) <= MAX_RETRY_WAIT_MS,
        retry_wait(count) <= retry_wait(count + 1),
{
    lemma_power_grows(1, count);
    lemma_power_grows(count, count + 1);
    assert(manager::power_of_two(1) == 2) by {
        reveal_with_fuel(manager::power_of_two, 2);
    }
}

/// Whether a service's selector chooses the pod. A selector that asks for nothing chooses
/// every pod, in any namespace.
pub open spec fn chooses(s: ServiceTask, p: PodTask) -> bool {
    s.spec.selector matches Some(sel) && (selector::asks_nothing(sel.deep_view()) || (
    s.metadata.namespace@ == p.metadata.namespace@ && selector::selects(
        sel.deep_view(),
        p.metadata.labels@,
    )))
}

/// The reference to a pod from an endpoint address.
pub open spec fn target_of(p: PodTask) -> TargetReferenceView {
    TargetReferenceView {
        api_version: p.api_version@,
        kind: p.kind@,
        namespace: p.metadata.namespace@,
        name: p.metadata.name@,
        uid: p.metadata.uid,
    }
}

/// The address of a pod.
pub open spec fn address_of(p: PodTask) -> EndpointAddressView {
    EndpointAddressView {
        ip: p.status.pod_ip->0@,
        node_name: p.spec.node_name.deep_view(),
        target_ref: Some(target_of(p)),
    }
}

/// The addresses of those of the first `n` pods that the service chooses and that have one.
pub open spec fn addresses_of(s: ServiceTask, pods: Seq<PodTask>, n: int) -> Seq<
    EndpointAddressView,
>
    decreases n,
{
    if n <= 0 {
        Seq::empty()
    } else {
        let rest = addresses_of(s, pods, n - 1);
        let p = pods[n - 1];
        if chooses(s, p) && p.status.pod_ip is Some {
            rest.push(address_of(p))
        } else {
            rest
        }
    }
}

/// The pods behind references.
pub open spec fn derefs(pods: Seq<&PodTask>) -> Seq<PodTask> {
    pods.map_values(|p: &PodTask| *p)
}

/// The endpoint port of a service port: the target port, or the port itself.
pub open spec fn endpoint_port(p: ServicePortView) -> EndpointPortView {
    EndpointPortView {
        port: match p.target_port {
            Some(t) => t,
            None => p.port,
        },
        protocol: p.protocol,
        name: p.name,
        app_protocol: None,
    }
}

/// The endpoints of a service.
pub open spec fn endpoints_of(s: ServiceTask, pods: Seq<PodTask>) -> EndpointView {
    EndpointView {
        api_version: "v1"@,
        kind: "Endpoints"@,
        metadata: meta::bare_meta(s.metadata.name@, s.metadata.namespace@, s.metadata.uid),
        subsets: seq![
            EndpointSubsetView {
                addresses: addresses_of(s, pods, pods.len() as int),
                not_ready_addresses: Seq::empty(),
                ports: s.spec.ports.deep_view().map_values(|p: ServicePortView| endpoint_port(p)),
            },
        ],
    }
}

fn selector_match(sel: &LabelSelector, svc_ns: &str, pod: &PodTask) -> (r: bool)
    ensures
        r == (svc_ns@ == pod.metadata.namespace@ && selector::selects(
            sel.deep_view(),
            pod.metadata.labels@,
        )),
{
    str_eq(svc_ns, pod.metadata.namespace.as_str()) && labels_match(sel, &pod.metadata.labels)
}

/// Whether a service's selector chooses the pod.
pub fn service_selects(svc: &ServiceTask, pod: &PodTask) -> (r: bool)
    ensures
        r == chooses(*svc, *pod),
{
    match &svc.spec.selector {
        Some(sel) => is_empty_selector(sel) || selector_match(
            sel,
            svc.metadata.namespace.as_str(),
            pod,
        ),
        None => false,
    }
}

fn endpoint_port_from_service_port(p: &ServicePort) -> (r: EndpointPort)
    ensures
        r.deep_view() == endpoint_port(p.deep_view()),
{
    EndpointPort {
        port: match p.target_port {
            Some(t) => t,
            None => p.port,
        },
        protocol: p.protocol.clone(),
        name: p.name.copy(),
        app_protocol: None,
    }
}

fn endpoint_address(p: &PodTask, ip: &String) -> (r: EndpointAddress)
    requires
        p.status.pod_ip == Some(*ip),
    ensures
        r.deep_view() == address_of(*p),
{
    EndpointAddress {
        ip: ip.clone(),
        node_name: p.spec.node_name.copy(),
        target_ref: Some(
            TargetReference {
                api_version: p.api_version.clone(),
                kind: p.kind.clone(),
                namespace: p.metadata.namespace.clone(),
                name: p.metadata.name.clone(),
                uid: p.metadata.uid,
            },
        ),
    }
}

/// Build an `Endpoint` object for given Service and list of Pods.
/// Returns `None` when the controller should skip processing (no selector).
pub fn build_endpoints_from_service_and_pods(svc: &ServiceTask, pods: &Vec<&PodTask>) -> (r: Option<
    Endpoint,
>)
    ensures
        match r {
            Some(e) => svc.spec.selector is Some && e.deep_view() == endpoints_of(*svc, derefs(pods@)),
            None => svc.spec.selector is None,
        },
{
    if svc.spec.selector.is_none() {
        return None;
    }
    let mut addresses: Vec<EndpointAddress> = Vec::new();
    assert(addresses.deep_view() =~= Seq::<EndpointAddressView>::empty());
    for i in 0..pods.len()
        invariant
            addresses.deep_view() == addresses_of(*svc, derefs(pods@), i as int),
    {
        let p: &PodTask = pods[i];
        assert(derefs(pods@)[i as int] == *p);
        if service_selects(svc, p) {
            match &p.status.pod_ip {
                Some(ip) => {
                    let ghost before = addresses.deep_view();
                    let a = endpoint_address(p, ip);
                    let ghost av = a.deep_view();
                    addresses.push(a);
                    assert(addresses.deep_view() =~= before.push(av));
                },
                None => {},
            }
        }
    }
    let mut ports: Vec<EndpointPort> = Vec::new();
    for i in 0..svc.spec.ports.len()
        invariant
            ports@.len() == i,
            forall|j: int|
                0 <= j < i ==> (#[trigger] ports@[j]).deep_view() == endpoint_port(
                    svc.spec.ports@[j].deep_view(),
                ),
    {
        ports.push(endpoint_port_from_service_port(&svc.spec.ports[i]));
    }
    assert(ports.deep_view() =~= svc.spec.ports.deep_view().map_values(
        |p: ServicePortView| endpoint_port(p),
    ));
    let none: Vec<EndpointAddress> = Vec::new();
    assert(none.deep_view() =~= Seq::<EndpointAddressView>::empty());
    let subset = EndpointSubset { addresses, not_ready_addresses: none, ports };
    let ghost sv = subset.deep_view();
    let mut subsets: Vec<EndpointSubset> = Vec::new();
    subsets.push(subset);
    assert(subsets.deep_view() =~= seq![sv]);
    Some(
        Endpoint {
            api_version: "v1".to_owned(),
            kind: "Endpoints".to_owned(),
            metadata: ObjectMeta::bare(
                svc.metadata.name.clone(),
                svc.metadata.namespace.clone(),
                svc.metadata.uid,
            ),
            subsets,
        },
    )
}

/// What the work on a service comes to.
#[derive(Debug)]
pub enum EndpointAction {
    /// The service is gone: its endpoints are deleted.
    Delete,
    /// The endpoints of the service are not kept by the controller.
    Skip,
    /// The endpoints to store.
    Write(Endpoint),
}

/// The controller of endpoints, with its copies of the services and pods.
pub struct EndpointController {
    pub service_index: Dict<ServiceTask>,
    pub pod_index: Dict<PodTask>,
    pub work: WorkQueue,
}

/// The pods of an index, in order.
pub open spec fn values_of(list: Seq<(String, PodTask)>) -> Seq<PodTask> {
    list.map_values(|e: (String, PodTask)| e.1)
}

/// The names of those of the first `n` services that choose the pod.
pub open spec fn services_for(list: Seq<(String, ServiceTask)>, p: PodTask, n: int) -> Seq<
    Seq<char>,
>
    decreases n,
{
    if n <= 0 {
        Seq::empty()
    } else {
        let rest = services_for(list, p, n - 1);
        if chooses(list[n - 1].1, p) {
            rest.push(list[n - 1].1.metadata.name@)
        } else {
            rest
        }
    }
}

/// The services, among the first `n`, that were not noted before, each once.
pub open spec fn newly_noted(dirty: Set<Seq<char>>, names: Seq<Seq<char>>, n: int) -> Seq<Seq<char>>
    decreases n,
{
    if n <= 0 {
        Seq::empty()
    } else {
        let rest = newly_noted(dirty, names, n - 1);
        if dirty.contains(names[n - 1]) || rest.contains(names[n - 1]) {
            rest
        } else {
            rest.push(names[n - 1])
        }
    }
}

/// The set with the first `n` names.
pub open spec fn with_names(dirty: Set<Seq<char>>, names: Seq<Seq<char>>, n: int) -> Set<Seq<char>>
    decreases n,
{
    if n <= 0 {
        dirty
    } else {
        with_names(dirty, names, n - 1).insert(names[n - 1])
    }
}

proof fn lemma_with_names(dirty: Set<Seq<char>>, names: Seq<Seq<char>>, n: int, x: Seq<char>)
    requires
        0 <= n <= names.len(),
    ensures
        with_names(dirty, names, n).contains(x) <==> dirty.contains(x) || newly_noted(
            dirty,
            names,
            n,
        ).contains(x),
    decreases n,
{
    if n > 0 {
        lemma_with_names(dirty, names, n - 1, x);
        let a = newly_noted(dirty, names, n - 1);
        let b = newly_noted(dirty, names, n);
        let last = names[n - 1];
        if !(dirty.contains(last) || a.contains(last)) {
            assert(b[b.len() - 1] == last);
            if a.contains(x) {
                let k = choose|k: int| 0 <= k < a.len() && a[k] == x;
                assert(b[k] == x);
            }
            if b.contains(x) && x != last {
                let k = choose|k: int| 0 <= k < b.len() && b[k] == x;
                assert(a[k] == x);
            }
        }
    }
}

impl EndpointController {
    pub fn new() -> (r: Self)
        ensures
            r.service_index@ == Map::<Seq<char>, ServiceTask>::empty(),
            r.pod_index@ == Map::<Seq<char>, PodTask>::empty(),
            r.work@.queued == Set::<Seq<char>>::empty(),
            r.work@.dirty == Set::<Seq<char>>::empty(),
            r.work@.processing == Set::<Seq<char>>::empty(),
            r.work@.attempts == Map::<Seq<char>, u32>::empty(),
    {
        EndpointController {
            service_index: Dict::new(),
            pod_index: Dict::new(),
            work: WorkQueue::new(),
        }
    }

    /// What is to be done for a service: its endpoints are deleted when it is gone; those of
    /// an external service, or of one without a selector, are left alone; otherwise they are
    /// made from the pods that it selects.
    pub fn sync_service(&self, key: &str) -> (r: EndpointAction)
        ensures
            !self.service_index@.contains_key(key@) ==> r is Delete,
            self.service_index@.contains_key(key@) ==> {
                let s = self.service_index@[key@];
                if s.spec.service_type@ == "ExternalName"@ || s.spec.selector is None {
                    r is Skip
                } else {
                    r matches EndpointAction::Write(e) && e.deep_view() == endpoints_of(
                        s,
                        values_of(self.pod_index.list()),
                    )
                }
            },
    {
        match self.service_index.get(key) {
            None => EndpointAction::Delete,
            Some(svc) => {
                if str_eq(svc.spec.service_type.as_str(), "ExternalName") {
                    return EndpointAction::Skip;
                }
                let pods = self.cached_pods();
                match build_endpoints_from_service_and_pods(svc, &pods) {
                    Some(e) => EndpointAction::Write(e),
                    None => EndpointAction::Skip,
                }
            },
        }
    }

    fn cached_pods(&self) -> (r: Vec<&PodTask>)
        ensures
            derefs(r@) == values_of(self.pod_index.list()),
    {
        let mut out: Vec<&PodTask> = Vec::new();
        let n = self.pod_index.len();
        for i in 0..n
            invariant
                n == self.pod_index.list().len(),
                out@.len() == i,
                forall|j: int| 0 <= j < i ==> *(#[trigger] out@[j]) == self.pod_index.list()[j].1,
        {
            let (_, p) = self.pod_index.entry(i);
            out.push(p);
        }
        assert(derefs(out@) =~= values_of(self.pod_index.list()));
        out
    }

    fn note(&mut self, name: &String, out: &mut Vec<String>)
        ensures
            final(self).service_index == old(self).service_index,
            final(self).pod_index == old(self).pod_index,
            final(self).work@ == old(self).work@.noted(name@),
            crate::text::texts(final(out)@) == if old(self).work@.dirty.contains(name@) {
                crate::text::texts(old(out)@)
            } else {
                crate::text::texts(old(out)@).push(name@)
            },
    {
        if self.work.schedule_enqueue(name) {
            let ghost before = crate::text::texts(out@);
            out.push(name.clone());
            assert(crate::text::texts(out@) =~= before.push(name@));
        }
    }

    /// Follows a change of a service. The result names the service when a wait of
    /// `SERVICE_DELAY_MS` is to be started for it.
    pub fn handle_service_change(&mut self, change: Change<ServiceTask>) -> (r: Vec<String>)
        ensures
            ({
                let name = match change {
                    Change::Add(s) => s.metadata.name@,
                    Change::Update { old, new } => new.metadata.name@,
                    Change::Delete(s) => s.metadata.name@,
                };
                &&& final(self).service_index@ == match change {
                    Change::Add(s) => old(self).service_index@.insert(name, s),
                    Change::Update { old: _, new } => old(self).service_index@.insert(name, new),
                    Change::Delete(_) => old(self).service_index@.remove(name),
                }
                &&& final(self).pod_index == old(self).pod_index
                &&& final(self).work@ == old(self).work@.noted(name)
                &&& crate::text::texts(r@) == if old(self).work@.dirty.contains(name) {
                    Seq::<Seq<char>>::empty()
                } else {
                    seq![name]
                }
            }),
    {
        let mut out: Vec<String> = Vec::new();
        assert(crate::text::texts(out@) =~= Seq::<Seq<char>>::empty());
        let name: String = match change {
            Change::Add(s) => {
                let n = s.metadata.name.clone();
                self.service_index.insert(n.clone(), s);
                n
            },
            Change::Update { old: _, new } => {
                let n = new.metadata.name.clone();
                self.service_index.insert(n.clone(), new);
                n
            },
            Change::Delete(s) => {
                self.service_index.remove(s.metadata.name.as_str());
                s.metadata.name
            },
        };
        self.note(&name, &mut out);
        assert(Seq::<Seq<char>>::empty().push(name@) =~= seq![name@]);
        out
    }

    fn note_services_for(&mut self, p: &PodTask) -> (r: Vec<String>)
        ensures
            final(self).service_index == old(self).service_index,
            final(self).pod_index == old(self).pod_index,
            ({
                let list = old(self).service_index.list();
                let names = services_for(list, *p, list.len() as int);
                let dirty = old(self).work@.dirty;
                &&& final(self).work@ == (WorkQueueView {
                    dirty: with_names(dirty, names, names.len() as int),
                    ..old(self).work@
                })
                &&& crate::text::texts(r@) == newly_noted(dirty, names, names.len() as int)
            }),
    {
        let ghost list = self.service_index.list();
        let ghost w0 = self.work@;
        let mut chosen: Vec<String> = Vec::new();
        assert(crate::text::texts(chosen@) =~= Seq::<Seq<char>>::empty());
        let n = self.service_index.len();
        for i in 0..n
            invariant
                n == list.len(),
                list == self.service_index.list(),
                *self == *old(self),
                crate::text::texts(chosen@) == services_for(list, *p, i as int),
        {
            let (_, s) = self.service_index.entry(i);
            if service_selects(s, p) {
                let ghost before = crate::text::texts(chosen@);
                chosen.push(s.metadata.name.clone());
                assert(crate::text::texts(chosen@) =~= before.push(list[i as int].1.metadata.name@));
            }
        }
        let ghost names = services_for(list, *p, list.len() as int);
        let mut out: Vec<String> = Vec::new();
        assert(crate::text::texts(out@) =~= Seq::<Seq<char>>::empty());
        for i in 0..chosen.len()
            invariant
                names == crate::text::texts(chosen@),
                self.service_index == old(self).service_index,
                self.pod_index == old(self).pod_index,
                w0 == old(self).work@,
                self.work@ == (WorkQueueView { dirty: with_names(w0.dirty, names, i as int), ..w0 }),
                crate::text::texts(out@) == newly_noted(w0.dirty, names, i as int),
        {
            assert(names[i as int] == chosen@[i as int]@);
            proof {
                lemma_with_names(w0.dirty, names, i as int, names[i as int]);
            }
            self.note(&chosen[i], &mut out);
        }
        out
    }

    /// Follows a change of a pod: the services that select it are noted. The result names
    /// those for which a wait of `POD_DELAY_MS` is to be started.
    pub fn handle_pod_change(&mut self, change: Change<PodTask>) -> (r: Vec<String>)
        ensures
            ({
                let p = match change {
                    Change::Add(p) => p,
                    Change::Update { old, new } => new,
                    Change::Delete(p) => p,
                };
                let list = old(self).service_index.list();
                let names = services_for(list, p, list.len() as int);
                let dirty = old(self).work@.dirty;
                &&& final(self).service_index == old(self).service_index
                &&& match change {
                    Change::Delete(_) => final(self).pod_index@ == old(self).pod_index@.remove(
                        p.metadata.name@,
                    ),
                    _ => final(self).pod_index@.dom() == old(self).pod_index@.dom().insert(
                        p.metadata.name@,
                    ) && final(self).pod_index@[p.metadata.name@].deep_view() == p.deep_view()
                        && forall|k: Seq<char>|
                        old(self).pod_index@.contains_key(k) && k != p.metadata.name@
                            ==> #[trigger] final(self).pod_index@[k] == old(self).pod_index@[k],
                }
                &&& final(self).work@ == (WorkQueueView {
                    dirty: with_names(dirty, names, names.len() as int),
                    ..old(self).work@
                })
                &&& crate::text::texts(r@) == newly_noted(dirty, names, names.len() as int)
            }),
    {
        match change {
            Change::Add(p) => {
                self.pod_index.insert(p.metadata.name.clone(), p.copy());
                self.note_services_for(&p)
            },
            Change::Update { old: _, new } => {
                self.pod_index.insert(new.metadata.name.clone(), new.copy());
                self.note_services_for(&new)
            },
            Change::Delete(p) => {
                self.pod_index.remove(p.metadata.name.as_str());
                self.note_services_for(&p)
            },
        }
    }

    /// The kinds of objects that the controller watches.
    pub fn watch_resources() -> (r: Vec<ResourceKind>)
        ensures
            r@ == seq![ResourceKind::Service, ResourceKind::Pod],
    {
        let mut v: Vec<ResourceKind> = Vec::new();
        v.push(ResourceKind::Service);
        v.push(ResourceKind::Pod);
        v
    }
}

/// Every address of a service's endpoints is that of a pod that the service selects, and
/// every selected pod with an address is among them.
pub proof fn law_endpoints_are_the_selected_pods(s: ServiceTask, pods: Seq<PodTask>, n: int)
    requires
        0 <= n <= pods.len(),
    ensures
        forall|k: int|
            0 <= k < addresses_of(s, pods, n).len() ==> exists|i: int|
                0 <= i < n && chooses(s, #[trigger] pods[i]) && pods[i].status.pod_ip is Some
                    && #[trigger] addresses_of(s, pods, n)[k] == address_of(pods[i]),
        forall|i: int|
            0 <= i < n && chooses(s, #[trigger] pods[i]) && pods[i].status.pod_ip is Some
                ==> addresses_of(s, pods, n).contains(address_of(pods[i])),
    decreases n,
{
    if n > 0 {
        law_endpoints_are_the_selected_pods(s, pods, n - 1);
        let a = addresses_of(s, pods, n - 1);
        let b = addresses_of(s, pods, n);
        let p = pods[n - 1];
        assert forall|k: int| 0 <= k < b.len() implies exists|i: int|
            0 <= i < n && chooses(s, #[trigger] pods[i]) && pods[i].status.pod_ip is Some
                && #[trigger] b[k] == address_of(pods[i]) by {
            if k < a.len() {
                assert(b[k] == a[k]);
                let i = choose|i: int|
                    0 <= i < n - 1 && chooses(s, #[trigger] pods[i]) && pods[i].status.pod_ip is Some
                        && a[k] == address_of(pods[i]);
                assert(chooses(s, pods[i]));
            } else {
                assert(chooses(s, pods[n - 1]));
            }
        }
        assert forall|i: int|
            0 <= i < n && chooses(s, #[trigger] pods[i]) && pods[i].status.pod_ip is Some implies b.contains(
        address_of(pods[i])) by {
            if i < n - 1 {
                let k = choose|k: int| 0 <= k < a.len() && a[k] == address_of(pods[i]);
                assert(b[k] == address_of(pods[i]));
            } else {
                assert(b[b.len() - 1] == address_of(pods[i]));
            }
        }
    }
}

/// The endpoints of a service hold one subset, in which each port of the service has its port, in
/// the same place: the one that the service aims at, or the service's own where it aims at none,
/// with the same protocol and the same name. They bear the name, the namespace and the identifier
/// of the service.
pub proof fn law_endpoint_ports_are_those_aimed_at(
    svc: ServiceTask,
    pods: Vec<&PodTask>,
    e: Endpoint,
)
    requires
        call_ensures(build_endpoints_from_service_and_pods, (&svc, &pods), Some(e)),
    ensures
        e.metadata.name@ == svc.metadata.name@,
        e.metadata.namespace@ == svc.metadata.namespace@,
        e.metadata.uid == svc.metadata.uid,
        e.subsets@.len() == 1,
        e.subsets@[0].not_ready_addresses@.len() == 0,
        e.subsets@[0].ports@.len() == svc.spec.ports@.len(),
        forall|i: int|
            0 <= i < svc.spec.ports@.len() ==> {
                let from = #[trigger] svc.spec.ports@[i];
                let to = e.subsets@[0].ports@[i];
                &&& from.target_port matches Some(t) ==> to.port == t
                &&& from.target_port is None ==> to.port == from.port
                &&& to.protocol@ == from.protocol@
                &&& to.name.deep_view() == from.name.deep_view()
                &&& to.app_protocol is None
            },
{
    let v = endpoints_of(svc, derefs(pods@));
    assert(e.deep_view() == v);
    assert(e.deep_view().metadata == e.metadata.deep_view());
    assert(e.subsets.deep_view() == v.subsets);
    assert(e.subsets.deep_view().len() == e.subsets@.len());
    assert(e.subsets.deep_view()[0] == e.subsets@[0].deep_view());
    let s = e.subsets@[0];
    assert(s.deep_view() == v.subsets[0]);
    assert(s.not_ready_addresses.deep_view().len() == s.not_ready_addresses@.len());
    assert(s.ports.deep_view() == v.subsets[0].ports);
    assert(s.ports.deep_view().len() == s.ports@.len());
    assert(svc.spec.ports.deep_view().len() == svc.spec.ports@.len());
    assert forall|i: int| 0 <= i < svc.spec.ports@.len() implies {
        let from = #[trigger] svc.spec.ports@[i];
        let to = s.ports@[i];
        &&& from.target_port matches Some(t) ==> to.port == t
        &&& from.target_port is None ==> to.port == from.port
        &&& to.protocol@ == from.protocol@
        &&& to.name.deep_view() == from.name.deep_view()
        &&& to.app_protocol is None
    } by {
        let from = svc.spec.ports@[i];
        let to = s.ports@[i];
        assert(s.ports.deep_view()[i] == to.deep_view());
        assert(svc.spec.ports.deep_view()[i] == from.deep_view());
        assert(to.deep_view() == endpoint_port(from.deep_view()));
        assert(to.app_protocol.deep_view() is None);
    }
}

/// Whether an address is that of the pod, and refers to it.
pub open spec fn leads_to(a: EndpointAddress, p: PodTask) -> bool {
    &&& p.status.pod_ip matches Some(ip) && a.ip@ == ip@
    &&& a.node_name.deep_view() == p.spec.node_name.deep_view()
    &&& a.target_ref matches Some(t) && t.name@ == p.metadata.name@ && t.namespace@
        == p.metadata.namespace@ && t.uid == p.metadata.uid && t.kind@ == p.kind@ && t.api_version@
        == p.api_version@
}

/// Whether an address leads to one of the pods that the service selects.
pub open spec fn leads_to_a_selected_pod(
    svc: ServiceTask,
    pods: Seq<&PodTask>,
    a: EndpointAddress,
) -> bool {
    exists|i: int|
        0 <= i < pods.len() && chooses(svc, *(#[trigger] pods[i])) && leads_to(a, *pods[i])
}

/// Whether one of the addresses leads to the pod.
pub open spec fn is_led_to(a: Seq<EndpointAddress>, p: PodTask) -> bool {
    exists|k: int| 0 <= k < a.len() && leads_to(#[trigger] a[k], p)
}

/// The addresses of a service's endpoints lead to the pods that the
/// service selects and that have an address: to each of them, and to no other.
pub proof fn law_endpoints_lead_to_the_selected_pods(
    svc: ServiceTask,
    pods: Vec<&PodTask>,
    e: Endpoint,
)
    requires
        call_ensures(build_endpoints_from_service_and_pods, (&svc, &pods), Some(e)),
    ensures
        ({
            let a = e.subsets@[0].addresses@;
            &&& forall|k: int|
                0 <= k < a.len() ==> leads_to_a_selected_pod(svc, pods@, #[trigger] a[k])
            &&& forall|i: int|
                0 <= i < pods@.len() && chooses(svc, *(#[trigger] pods@[i]))
                    && pods@[i].status.pod_ip is Some ==> is_led_to(a, *pods@[i])
            &&& a.len() <= pods@.len()
        }),
{
    law_endpoint_ports_are_those_aimed_at(svc, pods, e);
    let d = derefs(pods@);
    let v = endpoints_of(svc, d);
    let n = d.len() as int;
    law_endpoints_are_the_selected_pods(svc, d, n);
    lemma_addresses_len(svc, d, n);
    assert(e.subsets.deep_view()[0] == e.subsets@[0].deep_view());
    let s = e.subsets@[0];
    assert(s.addresses.deep_view() == v.subsets[0].addresses);
    assert(v.subsets[0].addresses == addresses_of(svc, d, n));
    assert(s.addresses.deep_view().len() == s.addresses@.len());
    let a = s.addresses@;
    assert forall|k: int| 0 <= k < a.len() implies leads_to_a_selected_pod(
        svc,
        pods@,
        #[trigger] a[k],
    ) by {
        assert(s.addresses.deep_view()[k] == a[k].deep_view());
        let i = choose|i: int|
            0 <= i < n && chooses(svc, #[trigger] d[i]) && d[i].status.pod_ip is Some
                && addresses_of(svc, d, n)[k] == address_of(d[i]);
        lemma_leads_to(a[k], d[i]);
        assert(d[i] == *pods@[i]);
        assert(chooses(svc, *pods@[i]));
    }
    assert forall|i: int|
        0 <= i < pods@.len() && chooses(svc, *(#[trigger] pods@[i])) && pods@[i].status.pod_ip is Some implies is_led_to(
    a, *pods@[i]) by {
        assert(d[i] == *pods@[i]);
        let all = addresses_of(svc, d, n);
        assert(all.contains(address_of(d[i])));
        let k = choose|k: int| 0 <= k < all.len() && all[k] == address_of(d[i]);
        assert(s.addresses.deep_view()[k] == a[k].deep_view());
        lemma_leads_to(a[k], d[i]);
    }
}

proof fn lemma_leads_to(a: EndpointAddress, p: PodTask)
    requires
        p.status.pod_ip is Some,
        a.deep_view() == address_of(p),
    ensures
        leads_to(a, p),
{
    assert(a.target_ref.deep_view() == Some(target_of(p)));
}

proof fn lemma_addresses_len(s: ServiceTask, pods: Seq<PodTask>, n: int)
    requires
        0 <= n <= pods.len(),
    ensures
        addresses_of(s, pods, n).len() <= n,
    decreases n,
{
    if n > 0 {
        lemma_addresses_len(s, pods, n - 1);
    }
}

/// A service without a selector has no endpoints of the controller's making, and one with a
/// selector has.
pub proof fn law_endpoints_need_a_selector(
    svc: ServiceTask,
    pods: Vec<&PodTask>,
    r: Option<Endpoint>,
)
    requires
        call_ensures(build_endpoints_from_service_and_pods, (&svc, &pods), r),
    ensures
        r is Some <==> svc.spec.selector is Some,
{
}

/// A service selects a pod exactly when its selector asks for nothing, or when the pod lies in the
/// service's namespace and its labels are what the selector asks for.
pub proof fn law_service_selects_by_namespace_and_labels(
    svc: ServiceTask,
    pod: PodTask,
    sel: LabelSelector,
    empty: bool,
    by_labels: bool,
    r: bool,
)
    requires
        call_ensures(service_selects, (&svc, &pod), r),
        call_ensures(is_empty_selector, (&sel,), empty),
        call_ensures(labels_match, (&sel, &pod.metadata.labels), by_labels),
        svc.spec.selector matches Some(s) ==> s == sel,
    ensures
        r <==> svc.spec.selector is Some && (empty || svc.metadata.namespace@
            == pod.metadata.namespace@ && by_labels),
{
}

/// A change is noted once, and comes to the queue when its time is due, unless the key is worked
/// on or queued already.
pub proof fn law_changes_wait_for_their_time(
    q: &mut WorkQueue,
    p: &mut WorkQueue,
    key: String,
    noted: bool,
    due: bool,
)
    requires
        call_ensures(WorkQueue::schedule_enqueue, (q, &key), noted),
        call_ensures(WorkQueue::timer_fired, (p, &key), due),
    ensures
        noted <==> !old(q).dirty@.contains(key@),
        final(q).dirty@.contains(key@),
        final(q).queued@ == old(q).queued@,
        due <==> !old(p).processing@.contains(key@) && !old(p).queued@.contains(key@),
        final(p).queued@.contains(key@) || final(p).processing@.contains(key@),
        final(p).processing@ == old(p).processing@ && final(p).dirty@ == old(p).dirty@,
{
    assert(final(q)@.dirty == final(q).dirty@);
    assert(final(q)@.queued == final(q).queued@);
    assert(final(p)@.queued == final(p).queued@);
    assert(final(p)@.processing == final(p).processing@);
    assert(final(p)@.dirty == final(p).dirty@);
}

/// Work on a key begins when it leaves the queue, and ends when it is set free. What changed
/// meanwhile is queued again; what failed is tried again a limited number of times.
pub proof fn law_work_on_a_service_begins_and_ends(
    q: &mut WorkQueue,
    p: &mut WorkQueue,
    key: String,
    ok: bool,
    r: Finished,
)
    requires
        call_ensures(WorkQueue::start, (q, &key), ()),
        call_ensures(WorkQueue::finish, (p, &key, ok), r),
        p.attempts@.contains_key(key@) ==> p.attempts@[key@] < u32::MAX,
    ensures
        final(q).processing@.contains(key@),
        !final(q).queued@.contains(key@) && !final(q).dirty@.contains(key@),
        !final(p).processing@.contains(key@) && !final(p).dirty@.contains(key@),
        r.was_dirty <==> old(p).dirty@.contains(key@),
        r.was_dirty ==> final(p).queued@.contains(key@),
        r.requeue <==> r.was_dirty && !old(p).queued@.contains(key@),
        ok ==> r.retry_after is None && !final(p).attempts@.contains_key(key@),
        !ok && !old(p).attempts@.contains_key(key@) ==> r.retry_after is Some,
        !ok && old(p).attempts@.contains_key(key@) ==> (r.retry_after is Some
            <==> old(p).attempts@[key@] < MAX_RETRIES),
        !ok && !r.was_dirty && old(p).attempts@.contains_key(key@)
            ==> final(p).attempts@.contains_key(key@) && final(p).attempts@[key@]
            == old(p).attempts@[key@] + 1,
{
    assert(final(q)@.processing == final(q).processing@);
    assert(final(q)@.queued == final(q).queued@);
    assert(final(q)@.dirty == final(q).dirty@);
    assert(final(p)@.processing == final(p).processing@);
    assert(final(p)@.dirty == final(p).dirty@);
    assert(final(p)@.queued == final(p).queued@);
    assert(final(p)@.attempts == final(p).attempts@);
    assert(old(p)@.attempts == old(p).attempts@);
}

/// A changed service is known as it is now, a deleted one is not known any more, and either has
/// its endpoints looked at again.
pub proof fn law_changed_service_is_looked_at_again(
    c: &mut EndpointController,
    d: &mut EndpointController,
    svc: ServiceTask,
    was: ServiceTask,
    r: Vec<String>,
    s: Vec<String>,
)
    requires
        call_ensures(
            EndpointController::handle_service_change,
            (c, Change::Update { old: was, new: svc }),
            r,
        ),
        call_ensures(EndpointController::handle_service_change, (d, Change::Delete(svc)), s),
    ensures
        final(c).service_index@.contains_key(svc.metadata.name@),
        final(c).service_index@[svc.metadata.name@] == svc,
        final(c).work.dirty@.contains(svc.metadata.name@),
        !final(d).service_index@.contains_key(svc.metadata.name@),
        final(d).work.dirty@.contains(svc.metadata.name@),
        !old(c).work.dirty@.contains(svc.metadata.name@) ==> r@.len() == 1 && r@[0]@
            == svc.metadata.name@,
        old(c).work.dirty@.contains(svc.metadata.name@) ==> r@.len() == 0,
{
    assert(final(c).work@.dirty == final(c).work.dirty@);
    assert(final(d).work@.dirty == final(d).work.dirty@);
    assert(old(c).work@.dirty == old(c).work.dirty@);
    assert(crate::text::texts(r@).len() == r@.len());
    if r@.len() == 1 {
        assert(crate::text::texts(r@)[0] == r@[0]@);
    }
}

proof fn lemma_services_for(list: Seq<(String, ServiceTask)>, p: PodTask, n: int, k: int)
    requires
        0 <= k < n <= list.len(),
        chooses(list[k].1, p),
    ensures
        services_for(list, p, n).contains(list[k].1.metadata.name@),
    decreases n,
{
    let name = list[k].1.metadata.name@;
    let now = services_for(list, p, n);
    if k == n - 1 {
        assert(now[now.len() - 1] == name);
    } else {
        lemma_services_for(list, p, n - 1, k);
        let before = services_for(list, p, n - 1);
        let i = choose|i: int| 0 <= i < before.len() && before[i] == name;
        assert(now[i] == name);
    }
}

proof fn lemma_names_are_noted(dirty: Set<Seq<char>>, names: Seq<Seq<char>>, n: int, x: Seq<char>)
    requires
        0 <= n <= names.len(),
    ensures
        with_names(dirty, names, n).contains(x) <==> dirty.contains(x) || names.take(n).contains(x),
    decreases n,
{
    if n > 0 {
        lemma_names_are_noted(dirty, names, n - 1, x);
        assert(names.take(n) =~= names.take(n - 1).push(names[n - 1]));
        let a = names.take(n - 1);
        let b = names.take(n);
        if a.contains(x) {
            let i = choose|i: int| 0 <= i < a.len() && a[i] == x;
            assert(b[i] == x);
        }
        if b.contains(x) {
            let i = choose|i: int| 0 <= i < b.len() && b[i] == x;
            if i < n - 1 {
                assert(a[i] == x);
            }
        }
        assert(b[n - 1] == names[n - 1]);
    }
}

/// A changed pod is known as it is now, a deleted one is not known any more, and each service that
/// selects it has its endpoints looked at again.
pub proof fn law_changed_pod_calls_for_its_services(
    c: &mut EndpointController,
    d: &mut EndpointController,
    pod: PodTask,
    r: Vec<String>,
    s: Vec<String>,
    k: int,
    selected: bool,
)
    requires
        call_ensures(EndpointController::handle_pod_change, (c, Change::Add(pod)), r),
        call_ensures(EndpointController::handle_pod_change, (d, Change::Delete(pod)), s),
        0 <= k < c.service_index.list().len(),
        c.service_index.list() == d.service_index.list(),
        call_ensures(service_selects, (&c.service_index.list()[k].1, &pod), selected),
    ensures
        final(c).pod_index@.contains_key(pod.metadata.name@),
        final(c).pod_index@[pod.metadata.name@].deep_view() == pod.deep_view(),
        !final(d).pod_index@.contains_key(pod.metadata.name@),
        selected ==> final(c).work.dirty@.contains(
            old(c).service_index.list()[k].1.metadata.name@,
        ),
        selected ==> final(d).work.dirty@.contains(
            old(c).service_index.list()[k].1.metadata.name@,
        ),
{
    let list = old(c).service_index.list();
    let names = services_for(list, pod, list.len() as int);
    let name = list[k].1.metadata.name@;
    if selected {
        lemma_services_for(list, pod, list.len() as int, k);
    }
    lemma_names_are_noted(old(c).work@.dirty, names, names.len() as int, name);
    lemma_names_are_noted(old(d).work@.dirty, names, names.len() as int, name);
    assert(names.take(names.len() as int) =~= names);
    assert(final(c).work@.dirty == final(c).work.dirty@);
    assert(final(d).work@.dirty == final(d).work.dirty@);
    assert(final(c).pod_index@.dom().contains(pod.metadata.name@));
}

/// The endpoints of a service that is gone are deleted; those of a service without a selector, or
/// of one that lies outside, are left alone.
pub proof fn law_endpoints_follow_their_service(c: EndpointController, key: &str, r: EndpointAction)
    requires
        call_ensures(EndpointController::sync_service, (&c, key), r),
    ensures
        r is Delete <==> !c.service_index@.contains_key(key@),
        r is Skip <==> c.service_index@.contains_key(key@) && (
        c.service_index@[key@].spec.service_type@ == "ExternalName"@
            || c.service_index@[key@].spec.selector is None),
{
}

} // verus!

//! Watching stored objects and handing events to controllers.
use vstd::prelude::*;
use crate::protocol::dict::{Dict, TextSet};
use crate::protocol::meta::ResourceKind;
use crate::seqs;
use crate::text;
use crate::text::without_prefix;

verus! {

/// A watch event. Contains the resource yaml.
#[derive(Debug)]
pub enum WatchEvent {
    Add { yaml: String },
    Update { old_yaml: String, new_yaml: String },
    Delete { yaml: String },
}

/// A watch response. Contains the resource kind, key, and event.
#[derive(Debug)]
pub struct ResourceWatchResponse {
    pub kind: ResourceKind,
    pub key: String,
    pub event: WatchEvent,
}

/// A change of an object, with the object as it is read from the event.
#[derive(Debug)]
pub enum Change<T> {
    Add(T),
    Update { old: T, new: T },
    Delete(T),
}

/// The kind of a change of a stored key.
#[derive(Debug, Clone, Copy, PartialEq, Eq, Structural)]
pub enum EventType {
    Put,
    Delete,
}

/// The text that bytes are read as when invalid parts are replaced.
pub uninterp spec fn lossy_text(b: Seq<u8>) -> Seq<char>;

/// `String::from_utf8_lossy`: the text of valid UTF-8 as it stands; other bytes are replaced.
#[verifier::external_body]
pub(crate) fn decode_lossy(b: &[u8]) -> (r: String)
    ensures
        r@ == lossy_text(b@),
        vstd::utf8::valid_utf8(b@) ==> r@ == vstd::utf8::decode_utf8(b@),
{
    String::from_utf8_lossy(b).into_owned()
}

/// The prefix of the keys under which objects of a kind are stored.
pub open spec fn prefix_of(kind: ResourceKind) -> Option<Seq<char>> {
    match kind {
        ResourceKind::Pod => Some("/registry/pods/"@),
        ResourceKind::Service => Some("/registry/services/"@),
        ResourceKind::Endpoint => Some("/registry/endpoints/"@),
        ResourceKind::ReplicaSet => Some("/registry/replicasets/"@),
        ResourceKind::Deployment => Some("/registry/deployments/"@),
        ResourceKind::Job => Some("/registry/jobs/"@),
        ResourceKind::Unknown => None,
    }
}

/// The prefix of the keys under which objects of a kind are stored; objects of an unknown
/// kind are not stored.
pub fn key_prefix(kind: ResourceKind) -> (r: Option<String>)
    ensures
        match r {
            Some(p) => prefix_of(kind) == Some(p@),
            None => prefix_of(kind) is None,
        },
{
    match kind {
        ResourceKind::Pod => Some("/registry/pods/".to_owned()),
        ResourceKind::Service => Some("/registry/services/".to_owned()),
        ResourceKind::Endpoint => Some("/registry/endpoints/".to_owned()),
        ResourceKind::ReplicaSet => Some("/registry/replicasets/".to_owned()),
        ResourceKind::Deployment => Some("/registry/deployments/".to_owned()),
        ResourceKind::Job => Some("/registry/jobs/".to_owned()),
        ResourceKind::Unknown => None,
    }
}

/// The key under which an object is stored.
pub fn object_key(kind: ResourceKind, name: &str) -> (r: Option<String>)
    ensures
        match r {
            Some(k) => prefix_of(kind) matches Some(p) && k@ == p + name@,
            None => prefix_of(kind) is None,
        },
{
    match key_prefix(kind) {
        Some(p) => Some(crate::text::concat2(p.as_str(), name)),
        None => None,
    }
}

/// A key without the prefix, when it has it.
pub open spec fn stripped(prefix: Seq<char>, key: Seq<char>) -> Seq<char> {
    if prefix.is_prefix_of(key) {
        key.skip(prefix.len() as int)
    } else {
        key
    }
}

/// The name of an object from the key of a watch event.
pub fn strip_watch_key(prefix: &str, key: &[u8]) -> (r: String)
    ensures
        r@ == stripped(prefix@, lossy_text(key@)),
        vstd::utf8::valid_utf8(key@) ==> r@ == stripped(prefix@, vstd::utf8::decode_utf8(key@)),
{
    let text = decode_lossy(key);
    strip_key(prefix, text)
}

/// A key without the prefix, when it has it.
pub fn strip_key(prefix: &str, key: String) -> (r: String)
    ensures
        r@ == stripped(prefix@, key@),
{
    match without_prefix(key.as_str(), prefix) {
        Some(t) => t,
        None => key,
    }
}

/// The event that a change of a stored key stands for: a put with a previous value is an
/// update, one without is an addition, and a deletion counts only with the previous value.
pub fn watch_event(event_type: EventType, value: &[u8], prev: Option<&[u8]>) -> (r: Option<
    WatchEvent,
>)
    ensures
        event_type == EventType::Put && prev is Some ==> (r matches Some(
            WatchEvent::Update { old_yaml, new_yaml },
        ) && old_yaml@ == lossy_text(prev->0@) && new_yaml@ == lossy_text(value@)),
        event_type == EventType::Put && prev is None ==> (r matches Some(WatchEvent::Add { yaml })
            && yaml@ == lossy_text(value@)),
        event_type == EventType::Delete && prev is Some ==> (r matches Some(
            WatchEvent::Delete { yaml },
        ) && yaml@ == lossy_text(prev->0@)),
        event_type == EventType::Delete && prev is None ==> r is None,
{
    match event_type {
        EventType::Put => match prev {
            Some(p) => Some(
                WatchEvent::Update { old_yaml: decode_lossy(p), new_yaml: decode_lossy(value) },
            ),
            None => Some(WatchEvent::Add { yaml: decode_lossy(value) }),
        },
        EventType::Delete => match prev {
            Some(p) => Some(WatchEvent::Delete { yaml: decode_lossy(p) }),
            None => None,
        },
    }
}

/// The name of the changed object and the event, from a change of a stored key. A change
/// without its key and value stands for nothing.
pub fn parse_watch_event(
    prefix: &str,
    event_type: EventType,
    kv: Option<(&[u8], &[u8])>,
    prev: Option<&[u8]>,
) -> (r: Option<(String, WatchEvent)>)
    ensures
        r is Some <==> kv is Some && !(event_type == EventType::Delete && prev is None),
        r matches Some(p) ==> {
            &&& p.0@ == stripped(prefix@, lossy_text((kv->0).0@))
            &&& (event_type == EventType::Put && prev is Some ==> (p.1 matches WatchEvent::Update {
                old_yaml,
                new_yaml,
            } && old_yaml@ == lossy_text(prev->0@) && new_yaml@ == lossy_text((kv->0).1@)))
            &&& (event_type == EventType::Put && prev is None ==> (p.1 matches WatchEvent::Add {
                yaml,
            } && yaml@ == lossy_text((kv->0).1@)))
            &&& (event_type == EventType::Delete ==> (p.1 matches WatchEvent::Delete { yaml }
                && yaml@ == lossy_text(prev->0@)))
        },
{
    match kv {
        None => None,
        Some((key, value)) => {
            let name = strip_watch_key(prefix, key);
            match watch_event(event_type, value, prev) {
                Some(e) => Some((name, e)),
                None => None,
            }
        },
    }
}

/// The first wait before a lost watch is opened again, in milliseconds.
pub const FIRST_BACKOFF_MS: u64 = 100;

/// The longest wait before a lost watch is opened again, in milliseconds.
pub const MAX_BACKOFF_MS: u64 = 30_000;

/// The number of times an event is handled at most.
pub const MAX_ATTEMPTS: u32 = 5;

/// Twice as long a wait, up to the longest one.
pub open spec fn doubled(backoff_ms: u64) -> int {
    if 2 * backoff_ms <= MAX_BACKOFF_MS {
        2 * backoff_ms
    } else {
        MAX_BACKOFF_MS as int
    }
}

/// The wait after the next failure: twice as long, up to the longest wait.
pub fn next_backoff(backoff_ms: u64) -> (r: u64)
    requires
        backoff_ms <= MAX_BACKOFF_MS,
    ensures
        r == doubled(backoff_ms),
{
    let twice: u64 = backoff_ms * 2;
    if twice <= MAX_BACKOFF_MS {
        twice
    } else {
        MAX_BACKOFF_MS
    }
}

/// The wait after the `n`th failure in a row.
pub open spec fn nth_backoff(n: nat) -> int
    decreases n,
{
    if n == 0 {
        FIRST_BACKOFF_MS as int
    } else {
        let b = nth_backoff((n - 1) as nat);
        if 2 * b <= MAX_BACKOFF_MS {
            2 * b
        } else {
            MAX_BACKOFF_MS as int
        }
    }
}

/// Waits never shrink while failures go on, and never leave their bounds.
pub proof fn law_backoff_is_bounded(n: nat)
    ensures
        FIRST_BACKOFF_MS <= nth_backoff(n) <= MAX_BACKOFF_MS,
        nth_backoff(n) <= nth_backoff(n + 1),
        n >= 9 ==> nth_backoff(n) == MAX_BACKOFF_MS,
    decreases n,
{
    if n > 0 {
        law_backoff_is_bounded((n - 1) as nat);
    }
    if n == 9 {
        assert(nth_backoff(9) == 30000) by {
            reveal_with_fuel(nth_backoff, 11);
        }
    }
}

/// Two to the power of `n`.
pub open spec fn power_of_two(n: nat) -> nat
    decreases n,
{
    if n == 0 {
        1
    } else {
        2 * power_of_two((n - 1) as nat)
    }
}

/// What follows a failed attempt to handle an event, with the number of attempts so far:
/// a wait in milliseconds before the next one, or nothing when it was the last.
pub fn retry_with_backoff(attempts: u32) -> (r: Option<u64>)
    requires
        attempts >= 1,
    ensures
        attempts >= MAX_ATTEMPTS ==> r is None,
        attempts < MAX_ATTEMPTS ==> (r matches Some(ms) && ms == 100 * power_of_two(
            attempts as nat,
        )),
{
    if attempts >= MAX_ATTEMPTS {
        return None;
    }
    proof {
        reveal_with_fuel(power_of_two, 6);
    }
    let factor: u64 = if attempts == 1 {
        2
    } else if attempts == 2 {
        4
    } else if attempts == 3 {
        8
    } else {
        16
    };
    Some(factor * 100)
}

/// Whether the watch of a kind failed, and how far it came.
#[derive(Debug, Clone, Copy, PartialEq, Eq, Structural)]
pub enum WatchOutcome {
    /// What is stored could not be read.
    SnapshotFailed,
    /// The watch could not be opened.
    WatchFailed,
    /// The watch was opened, and closed again.
    StreamEnded,
}

/// The watch of a kind of objects, which is opened again whenever it is lost.
#[derive(Debug)]
pub struct WatchLoop {
    /// The wait before it is opened again, in milliseconds.
    pub backoff_ms: u64,
}

impl WatchLoop {
    /// Whether the wait lies within its bounds.
    pub open spec fn wf(&self) -> bool {
        FIRST_BACKOFF_MS <= self.backoff_ms <= MAX_BACKOFF_MS
    }

    pub fn new() -> (r: Self)
        ensures
            r.wf(),
            r.backoff_ms == FIRST_BACKOFF_MS,
    {
        WatchLoop { backoff_ms: FIRST_BACKOFF_MS }
    }

    /// The revision that the watch starts from, so that what was read with the snapshot does not
    /// come again as an event.
    pub fn start_revision(snapshot: i64) -> (r: i64)
        requires
            snapshot < i64::MAX,
        ensures
            r == snapshot + 1,
    {
        snapshot + 1
    }

    /// The wait before the watch is opened again. It starts anew after a watch that was opened,
    /// and doubles otherwise, up to the longest wait.
    pub fn run_resource_watch_loop(&mut self, outcome: WatchOutcome) -> (wait_ms: u64)
        requires
            old(self).wf(),
        ensures
            final(self).wf(),
            wait_ms == if outcome == WatchOutcome::StreamEnded {
                FIRST_BACKOFF_MS
            } else {
                old(self).backoff_ms
            },
            final(self).backoff_ms == doubled(wait_ms),
    {
        if outcome == WatchOutcome::StreamEnded {
            self.backoff_ms = FIRST_BACKOFF_MS;
        }
        let wait = self.backoff_ms;
        self.backoff_ms = next_backoff(wait);
        wait
    }
}

/// A registered controller: the kinds that it watches, the keys whose events it took, the number of
/// events that it may handle at once, and that of those it handles.
#[derive(Debug)]
pub struct Registered {
    pub kinds: Vec<ResourceKind>,
    pub inflight: TextSet,
    pub workers: usize,
    pub busy: usize,
}

/// The contents of a registered controller.
pub struct RegisteredView {
    pub kinds: Seq<ResourceKind>,
    pub inflight: Set<Seq<char>>,
    pub workers: usize,
    pub busy: usize,
}

impl View for Registered {
    type V = RegisteredView;

    open spec fn view(&self) -> RegisteredView {
        RegisteredView {
            kinds: self.kinds@,
            inflight: self.inflight@,
            workers: self.workers,
            busy: self.busy,
        }
    }
}

/// Hands events to the controllers that watch their kind, keeps two events for one key from being
/// handled at once, and limits how many a controller handles at once.
#[derive(Debug)]
pub struct ControllerManager {
    controllers: Dict<Registered>,
    stopped: bool,
}

/// The contents of a manager.
#[verifier::ext_equal]
pub struct ManagerView {
    pub controllers: Map<Seq<char>, RegisteredView>,
    pub stopped: bool,
}

impl View for ControllerManager {
    type V = ManagerView;

    closed spec fn view(&self) -> ManagerView {
        ManagerView {
            controllers: self.controllers@.map_values(|c: Registered| c@),
            stopped: self.stopped,
        }
    }
}

impl ManagerView {
    /// Whether a controller receives events for a kind.
    pub open spec fn watches(self, name: Seq<char>, kind: ResourceKind) -> bool {
        self.controllers.contains_key(name) && self.controllers[name].kinds.contains(kind)
    }

    /// Whether a controller took an event for the key, and has not handled it yet.
    pub open spec fn handles(self, name: Seq<char>, key: Seq<char>) -> bool {
        self.controllers.contains_key(name) && self.controllers[name].inflight.contains(key)
    }

    /// Whether no controller handles more events at once than it may.
    pub open spec fn within_limits(self) -> bool {
        forall|name: Seq<char>|
            self.controllers.contains_key(name) ==> (#[trigger] self.controllers[name]).busy
                <= self.controllers[name].workers
    }

    /// Whether a controller can handle one more event now.
    pub open spec fn has_free_worker(self, name: Seq<char>) -> bool {
        self.controllers.contains_key(name) && self.controllers[name].busy
            < self.controllers[name].workers
    }

    /// The manager with a controller that watches the kinds and handles nothing yet.
    pub open spec fn with_controller(
        self,
        name: Seq<char>,
        kinds: Seq<ResourceKind>,
        workers: usize,
    ) -> ManagerView {
        let c = RegisteredView { kinds, inflight: Set::empty(), workers, busy: 0 };
        ManagerView { controllers: self.controllers.insert(name, c), ..self }
    }

    /// The manager with another state of a controller.
    pub open spec fn with_state(
        self,
        name: Seq<char>,
        inflight: Set<Seq<char>>,
        busy: usize,
    ) -> ManagerView {
        let c = RegisteredView { inflight, busy, ..self.controllers[name] };
        ManagerView { controllers: self.controllers.insert(name, c), ..self }
    }

    /// The manager after a controller took an event.
    pub open spec fn began(self, name: Seq<char>, key: Seq<char>) -> ManagerView {
        if self.stopped || !self.controllers.contains_key(name) {
            self
        } else {
            let c = self.controllers[name];
            self.with_state(name, c.inflight.insert(key), c.busy)
        }
    }

    /// The manager after a controller started to handle an event, if it could.
    pub open spec fn working(self, name: Seq<char>) -> ManagerView {
        if self.has_free_worker(name) {
            let c = self.controllers[name];
            self.with_state(name, c.inflight, (c.busy + 1) as usize)
        } else {
            self
        }
    }

    /// The manager after a controller handled an event.
    pub open spec fn ended(self, name: Seq<char>, key: Seq<char>) -> ManagerView {
        if !self.controllers.contains_key(name) {
            self
        } else {
            let c = self.controllers[name];
            let busy = if c.busy > 0 {
                (c.busy - 1) as usize
            } else {
                c.busy
            };
            self.with_state(name, c.inflight.remove(key), busy)
        }
    }
}

fn copy_event(e: &WatchEvent) -> (r: WatchEvent)
    ensures
        r == *e,
{
    match e {
        WatchEvent::Add { yaml } => WatchEvent::Add { yaml: yaml.clone() },
        WatchEvent::Update { old_yaml, new_yaml } => WatchEvent::Update {
            old_yaml: old_yaml.clone(),
            new_yaml: new_yaml.clone(),
        },
        WatchEvent::Delete { yaml } => WatchEvent::Delete { yaml: yaml.clone() },
    }
}

fn names_kind(kinds: &Vec<ResourceKind>, kind: ResourceKind) -> (r: bool)
    ensures
        r == kinds@.contains(kind),
{
    for i in 0..kinds.len()
        invariant
            forall|j: int| 0 <= j < i ==> kinds@[j] != kind,
    {
        if kinds[i] == kind {
            assert(kinds@[i as int] == kind);
            return true;
        }
    }
    false
}

impl ControllerManager {
    /// Creates a new ControllerManager instance.
    pub fn new() -> (r: Self)
        ensures
            r@.controllers == Map::<Seq<char>, RegisteredView>::empty(),
            !r@.stopped,
    {
        let r = ControllerManager { controllers: Dict::new(), stopped: false };
        assert(r@.controllers =~= Map::<Seq<char>, RegisteredView>::empty());
        r
    }

    /// Registers a controller that may handle so many events at once, unless its initialization
    /// failed. One that has the name already is replaced.
    pub fn register(
        &mut self,
        name: String,
        kinds: Vec<ResourceKind>,
        workers: usize,
        init: Result<(), String>,
    ) -> (r: Result<(), String>)
        ensures
            r == init,
            final(self)@ == match init {
                Ok(_) => old(self)@.with_controller(name@, kinds@, workers),
                Err(_) => old(self)@,
            },
    {
        if init.is_err() {
            return init;
        }
        let ghost before = self@;
        let ghost nv = name@;
        let ghost kv = kinds@;
        self.controllers.insert(
            name,
            Registered { kinds, inflight: TextSet::new(), workers, busy: 0 },
        );
        assert(self@ =~= before.with_controller(nv, kv, workers)) by {
            assert(self@.controllers =~= before.with_controller(nv, kv, workers).controllers);
        }
        init
    }

    /// The controllers that receive events for a kind: those that declared that they watch it.
    pub fn get_senders_by_kind(&self, kind: ResourceKind) -> (r: Vec<String>)
        ensures
            text::texts(r@).no_duplicates(),
            forall|x: Seq<char>| #[trigger]
                text::texts(r@).contains(x) <==> self@.watches(x, kind),
    {
        let names = self.controllers.names();
        let ghost all = text::texts(names@);
        let ghost p = |x: Seq<char>| self@.watches(x, kind);
        let mut out: Vec<String> = Vec::new();
        proof {
            seqs::lemma_filter_none(all, p);
            assert(text::texts(out@) =~= Seq::<Seq<char>>::empty());
        }
        for i in 0..names.len()
            invariant
                all == text::texts(names@),
                all.to_set() == self.controllers@.dom(),
                p == (|x: Seq<char>| self@.watches(x, kind)),
                text::texts(out@) == all.take(i as int).filter(p),
        {
            proof {
                seqs::lemma_filter_take(all, p, i as int);
                assert(all[i as int] == names@[i as int]@);
                assert(all.to_set().contains(all[i as int]));
            }
            let watches = match self.controllers.get(names[i].as_str()) {
                Some(c) => names_kind(&c.kinds, kind),
                None => false,
            };
            if watches {
                let ghost before = text::texts(out@);
                out.push(names[i].clone());
                assert(text::texts(out@) =~= before.push(names@[i as int]@));
            }
        }
        proof {
            assert(all.take(names@.len() as int) =~= all);
            seqs::lemma_filter_members(all, p);
            seqs::lemma_filter_distinct(all, p);
            assert forall|x: Seq<char>| #[trigger]
                text::texts(out@).contains(x) <==> self@.watches(x, kind) by {
                if self@.watches(x, kind) {
                    assert(all.to_set().contains(x));
                    assert(p(x));
                }
                if text::texts(out@).contains(x) {
                    assert(p(x));
                }
            }
        }
        out
    }

    /// The responses that an event brings: one for each controller that watches the kind.
    pub fn broadcast_resource_event(&self, kind: ResourceKind, key: String, event: WatchEvent) -> (r:
        Vec<(String, ResourceWatchResponse)>)
        ensures
            ({
                let names = r@.map_values(|p: (String, ResourceWatchResponse)| p.0@);
                &&& names.no_duplicates()
                &&& forall|x: Seq<char>| #[trigger] names.contains(x) <==> self@.watches(x, kind)
            }),
            forall|i: int|
                0 <= i < r@.len() ==> (#[trigger] r@[i]).1 == (ResourceWatchResponse {
                    kind,
                    key,
                    event,
                }),
    {
        let names = self.get_senders_by_kind(kind);
        let mut out: Vec<(String, ResourceWatchResponse)> = Vec::new();
        for i in 0..names.len()
            invariant
                out@.len() == i,
                forall|j: int|
                    0 <= j < i ==> (#[trigger] out@[j]).0@ == names@[j]@ && out@[j].1 == (
                    ResourceWatchResponse { kind, key, event }),
        {
            let response = ResourceWatchResponse {
                kind,
                key: key.clone(),
                event: copy_event(&event),
            };
            out.push((names[i].clone(), response));
        }
        assert(out@.map_values(|p: (String, ResourceWatchResponse)| p.0@) =~= text::texts(names@));
        out
    }

    /// A controller takes an event from its queue. The result says whether it is to be handled:
    /// not while one for the same key is being handled, and not after the shutdown.
    pub fn begin_event(&mut self, name: &String, key: &String) -> (r: bool)
        ensures
            r == (!old(self)@.stopped && old(self)@.controllers.contains_key(name@) && !old(
                self,
            )@.handles(name@, key@)),
            final(self)@ == old(self)@.began(name@, key@),
    {
        let ghost before = self@;
        if self.stopped {
            return false;
        }
        match self.controllers.remove(name.as_str()) {
            None => {
                assert(self@.controllers =~= before.controllers);
                false
            },
            Some(c) => {
                let mut c = c;
                let fresh = c.inflight.insert(key.clone());
                self.controllers.insert(name.clone(), c);
                assert(self@ =~= before.began(name@, key@)) by {
                    assert(self@.controllers =~= before.began(name@, key@).controllers);
                }
                fresh
            },
        }
    }

    /// A controller starts to handle an event that it took. The result says whether it may: an
    /// event beyond the limit waits until another one was handled.
    pub fn start_work(&mut self, name: &String) -> (r: bool)
        ensures
            r == old(self)@.has_free_worker(name@),
            final(self)@ == old(self)@.working(name@),
    {
        let ghost before = self@;
        match self.controllers.remove(name.as_str()) {
            None => {
                assert(self@.controllers =~= before.controllers);
                false
            },
            Some(c) => {
                let mut c = c;
                let free = c.busy < c.workers;
                if free {
                    c.busy = c.busy + 1;
                }
                self.controllers.insert(name.clone(), c);
                assert(self@ =~= before.working(name@)) by {
                    assert(self@.controllers =~= before.working(name@).controllers);
                }
                free
            },
        }
    }

    /// A controller handled an event.
    pub fn end_event(&mut self, name: &String, key: &String)
        ensures
            final(self)@ == old(self)@.ended(name@, key@),
    {
        let ghost before = self@;
        match self.controllers.remove(name.as_str()) {
            None => {
                assert(self@.controllers =~= before.controllers);
            },
            Some(c) => {
                let mut c = c;
                c.inflight.remove(key.as_str());
                if c.busy > 0 {
                    c.busy = c.busy - 1;
                }
                self.controllers.insert(name.clone(), c);
                assert(self@ =~= before.ended(name@, key@)) by {
                    assert(self@.controllers =~= before.ended(name@, key@).controllers);
                }
            },
        }
    }

    /// Gracefully shuts down the ControllerManager: events that are being handled are finished,
    /// and no further ones are taken.
    pub fn shutdown(&mut self)
        ensures
            final(self)@ == (ManagerView { stopped: true, ..old(self)@ }),
    {
        self.stopped = true;
    }
}

/// While a controller handles an event for a key, no other one for the key is handled, and the
/// end of the work opens the way for the next.
pub proof fn law_keys_are_handled_one_at_a_time(m: ManagerView, name: Seq<char>, key: Seq<char>)
    requires
        !m.stopped,
        m.controllers.contains_key(name),
    ensures
        m.began(name, key).handles(name, key),
        !m.began(name, key).ended(name, key).handles(name, key),
        m.began(name, key).began(name, key) == m.began(name, key),
{
    let a = m.began(name, key);
    assert(a.began(name, key).controllers[name].inflight =~= a.controllers[name].inflight);
    assert(a.began(name, key).controllers =~= a.controllers);
}

/// After the shutdown no event is taken, and events that are being handled can still end; a second
/// shutdown changes nothing.
pub proof fn law_shutdown_is_final(m: ManagerView, name: Seq<char>, key: Seq<char>)
    ensures
        ({
            let stopped = ManagerView { stopped: true, ..m };
            &&& stopped.began(name, key) == stopped
            &&& stopped.ended(name, key).stopped
            &&& !stopped.ended(name, key).handles(name, key)
            &&& ManagerView { stopped: true, ..stopped } == stopped
        }),
{
}

/// A controller never handles more events at once than it may, and one that is at its limit can
/// handle the next as soon as one was handled.
pub proof fn law_workers_are_limited(
    m: ManagerView,
    name: Seq<char>,
    key: Seq<char>,
    kinds: Seq<ResourceKind>,
    workers: usize,
)
    requires
        m.within_limits(),
    ensures
        m.with_controller(name, kinds, workers).within_limits(),
        m.began(name, key).within_limits(),
        m.working(name).within_limits(),
        m.ended(name, key).within_limits(),
        m.controllers.contains_key(name) && m.controllers[name].workers > 0 ==> m.ended(
            name,
            key,
        ).has_free_worker(name),
{
}

/// Controllers do not get in each other's way: what one handles leaves the others as they are.
pub proof fn law_controllers_are_independent(
    m: ManagerView,
    name: Seq<char>,
    other: Seq<char>,
    key: Seq<char>,
    k: Seq<char>,
    kind: ResourceKind,
)
    requires
        name != other,
    ensures
        m.began(name, key).handles(other, k) == m.handles(other, k),
        m.ended(name, key).handles(other, k) == m.handles(other, k),
        m.working(name).has_free_worker(other) == m.has_free_worker(other),
        m.began(name, key).watches(other, kind) == m.watches(other, kind),
        m.began(name, key).watches(name, kind) == m.watches(name, kind),
{
}

/// The name of an object is read back from the key under which it is stored.
pub proof fn law_stored_key_gives_back_the_name(prefix: Seq<char>, name: Seq<char>)
    ensures
        stripped(prefix, prefix + name) == name,
{
    assert(prefix.is_prefix_of(prefix + name)) by {
        assert((prefix + name).take(prefix.len() as int) =~= prefix);
    }
    assert((prefix + name).skip(prefix.len() as int) =~= name);
}

/// The objects of each kind are stored under a prefix of their own, and an object under that and
/// its name.
pub proof fn law_objects_are_stored_by_kind_and_name(
    kind: ResourceKind,
    name: &str,
    prefix: Option<String>,
    key: Option<String>,
)
    requires
        call_ensures(key_prefix, (kind,), prefix),
        call_ensures(object_key, (kind, name), key),
    ensures
        prefix is Some <==> kind != ResourceKind::Unknown,
        key is Some <==> kind != ResourceKind::Unknown,
        kind == ResourceKind::Pod ==> prefix->0@ == "/registry/pods/"@,
        kind == ResourceKind::Service ==> prefix->0@ == "/registry/services/"@,
        kind == ResourceKind::Endpoint ==> prefix->0@ == "/registry/endpoints/"@,
        kind == ResourceKind::ReplicaSet ==> prefix->0@ == "/registry/replicasets/"@,
        kind == ResourceKind::Deployment ==> prefix->0@ == "/registry/deployments/"@,
        kind == ResourceKind::Job ==> prefix->0@ == "/registry/jobs/"@,
        key matches Some(k) ==> k@ == prefix->0@ + name@,
{
}

/// A key is worked on by one worker at a time: work on it begins unless it is being worked on or
/// the manager was stopped, it is then being worked on, and it no longer is once the work ended.
/// Other keys of the controller and other controllers are left alone.
pub proof fn law_work_on_a_key_begins_and_ends(
    m: &mut ControllerManager,
    name: String,
    key: String,
    begun: bool,
)
    requires
        call_ensures(ControllerManager::begin_event, (m, &name, &key), begun),
        old(m)@.controllers.contains_key(name@),
    ensures
        ({
            let a = old(m)@.controllers[name@];
            let b = final(m)@.controllers[name@];
            &&& begun <==> !old(m)@.stopped && !a.inflight.contains(key@)
            &&& !old(m)@.stopped ==> b.inflight.contains(key@)
            &&& old(m)@.stopped ==> final(m)@ == old(m)@
            &&& forall|k: Seq<char>|
                k != key@ ==> #[trigger] b.inflight.contains(k) == a.inflight.contains(k)
            &&& b.kinds == a.kinds && b.workers == a.workers && b.busy == a.busy
            &&& final(m)@.stopped == old(m)@.stopped
            &&& forall|other: Seq<char>|
                other != name@ && old(m)@.controllers.contains_key(other)
                    ==> final(m)@.controllers.contains_key(other)
                    && #[trigger] final(m)@.controllers[other] == old(m)@.controllers[other]
        }),
{
}

/// A worker is taken when one is free, and no more than there are; the end of the work sets it
/// free again, and the key with it.
pub proof fn law_workers_are_taken_and_set_free(
    m: &mut ControllerManager,
    e: &mut ControllerManager,
    name: String,
    key: String,
    started: bool,
)
    requires
        call_ensures(ControllerManager::start_work, (m, &name), started),
        call_ensures(ControllerManager::end_event, (e, &name, &key), ()),
        old(m)@.controllers.contains_key(name@),
        old(e)@.controllers.contains_key(name@),
    ensures
        ({
            let a = old(m)@.controllers[name@];
            let b = final(m)@.controllers[name@];
            &&& started <==> a.busy < a.workers
            &&& b.busy == if started {
                a.busy + 1
            } else {
                a.busy as int
            }
            &&& b.inflight == a.inflight && b.workers == a.workers
        }),
        ({
            let a = old(e)@.controllers[name@];
            let b = final(e)@.controllers[name@];
            &&& !b.inflight.contains(key@)
            &&& a.busy > 0 ==> b.busy == a.busy - 1
            &&& a.busy == 0 ==> b.busy == 0
            &&& forall|k: Seq<char>|
                k != key@ ==> #[trigger] b.inflight.contains(k) == a.inflight.contains(k)
        }),
{
}

/// An event goes to each controller that watches its kind, once, as it came.
pub proof fn law_events_go_to_those_who_watch(
    m: ControllerManager,
    kind: ResourceKind,
    key: String,
    event: WatchEvent,
    r: Vec<(String, ResourceWatchResponse)>,
)
    requires
        call_ensures(ControllerManager::broadcast_resource_event, (&m, kind, key, event), r),
    ensures
        forall|i: int|
            0 <= i < r@.len() ==> m@.controllers.contains_key((#[trigger] r@[i]).0@)
                && m@.controllers[r@[i].0@].kinds.contains(kind) && r@[i].1.kind == kind && r@[i].1.key
                == key && r@[i].1.event == event,
        forall|name: Seq<char>| #[trigger]
            m@.controllers.contains_key(name) && m@.controllers[name].kinds.contains(kind)
                ==> exists|i: int| 0 <= i < r@.len() && (#[trigger] r@[i]).0@ == name,
        forall|i: int, j: int|
            0 <= i < j < r@.len() ==> (#[trigger] r@[i]).0@ != (#[trigger] r@[j]).0@,
{
    let names = r@.map_values(|p: (String, ResourceWatchResponse)| p.0@);
    assert forall|i: int| 0 <= i < r@.len() implies m@.controllers.contains_key(
        (#[trigger] r@[i]).0@,
    ) && m@.controllers[r@[i].0@].kinds.contains(kind) by {
        assert(names[i] == r@[i].0@);
        assert(names.contains(names[i]));
        assert(m@.watches(names[i], kind));
    }
    assert forall|name: Seq<char>| #[trigger]
        m@.controllers.contains_key(name) && m@.controllers[name].kinds.contains(kind) implies exists|
        i: int,
    | 0 <= i < r@.len() && (#[trigger] r@[i]).0@ == name by {
        assert(m@.watches(name, kind));
        assert(names.contains(name));
        let i = choose|i: int| 0 <= i < names.len() && names[i] == name;
        assert(r@[i].0@ == name);
    }
    assert forall|i: int, j: int| 0 <= i < j < r@.len() implies (#[trigger] r@[i]).0@ != (
    #[trigger] r@[j]).0@ by {
        assert(names[i] == r@[i].0@ && names[j] == r@[j].0@);
    }
}

/// Waits double until they reach their limit, and a failed event is tried again up to four times,
/// after 200 ms at first and twice as long each time.
pub proof fn law_waits_double(
    wait: u64,
    next: u64,
    attempts: u32,
    now: Option<u64>,
    later: Option<u64>,
)
    requires
        call_ensures(next_backoff, (wait,), next),
        call_ensures(retry_with_backoff, (attempts,), now),
        call_ensures(retry_with_backoff, ((attempts + 1) as u32,), later),
        wait <= 30_000,
        1 <= attempts < u32::MAX,
    ensures
        next == if wait <= 15_000 {
            2 * wait
        } else {
            30_000
        },
        now is Some <==> attempts < 5,
        attempts == 1 ==> now == Some(200u64),
        later is Some ==> now is Some && later->0 == 2 * now->0,
{
    reveal_with_fuel(power_of_two, 3);
}

/// What a change of a stored value tells: a new value is an addition, one in the place of another
/// an update of that, and the end of a value is its deletion, which is not told where it is not
/// known what was deleted.
pub proof fn law_changes_tell_what_was_and_is(
    event_type: EventType,
    value: &[u8],
    prev: Option<&[u8]>,
    r: Option<WatchEvent>,
)
    requires
        call_ensures(watch_event, (event_type, value, prev), r),
    ensures
        r is None <==> event_type == EventType::Delete && prev is None,
        r matches Some(e) ==> {
            &&& e is Add <==> event_type == EventType::Put && prev is None
            &&& e is Update <==> event_type == EventType::Put && prev is Some
            &&& e is Delete <==> event_type == EventType::Delete
            &&& e matches WatchEvent::Add { yaml } ==> yaml@ == lossy_text(value@)
            &&& e matches WatchEvent::Update { old_yaml, new_yaml } ==> new_yaml@ == lossy_text(
                value@,
            ) && old_yaml@ == lossy_text(prev->0@)
            &&& e matches WatchEvent::Delete { yaml } ==> yaml@ == lossy_text(prev->0@)
        },
{
}

/// A failed watch is begun again after a wait that doubles from one failure to the next; one whose
/// stream ended is begun again after the first wait. Watching goes on right behind the snapshot.
pub proof fn law_watches_are_begun_again(
    w: &mut WatchLoop,
    outcome: WatchOutcome,
    wait: u64,
    snapshot: i64,
    start: i64,
)
    requires
        call_ensures(WatchLoop::run_resource_watch_loop, (w, outcome), wait),
        call_ensures(WatchLoop::start_revision, (snapshot,), start),
    ensures
        start == snapshot + 1,
        outcome == WatchOutcome::StreamEnded ==> wait == 100,
        outcome != WatchOutcome::StreamEnded ==> wait == old(w).backoff_ms,
        wait <= 15_000 ==> final(w).backoff_ms == 2 * wait,
        15_000 < wait <= 30_000 ==> final(w).backoff_ms == 30_000,
{
}

/// A controller that could be started watches the kinds that it named, and no worker of it is
/// busy; one that could not is not known.
pub proof fn law_started_controller_watches_its_kinds(
    m: &mut ControllerManager,
    name: String,
    kinds: Vec<ResourceKind>,
    workers: usize,
    e: String,
    other: &mut ControllerManager,
    r: Result<(), String>,
    s: Result<(), String>,
    kind: ResourceKind,
)
    requires
        call_ensures(
            ControllerManager::register,
            (m, name, kinds, workers, Ok::<(), String>(())),
            r,
        ),
        call_ensures(
            ControllerManager::register,
            (other, name, kinds, workers, Err::<(), String>(e)),
            s,
        ),
    ensures
        r is Ok,
        final(m)@.watches(name@, kind) <==> kinds@.contains(kind),
        final(m)@.controllers[name@].workers == workers && final(m)@.controllers[name@].busy == 0,
        s is Err,
        final(other)@ == old(other)@,
{
}

} // verus!

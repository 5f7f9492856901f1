//! The work on one service of the packet filter: which rules are made, merged and sent, and what
//! is noted afterwards.
use vstd::prelude::*;
use crate::controllers::nftrules_controller;
use crate::controllers::nftrules_controller::{
    empty_endpoint_for_service, merge_incremental_payloads, record_all, retry_delay,
    services_with, services_without, NftPlan, NftablesController, MAX_SEND_ATTEMPTS,
};
use crate::protocol::dict::TextSet;
use crate::protocol::message::RksMessage;
use crate::protocol::service::{Endpoint, ServiceTask, ServiceTaskView};
use crate::text;

verus! {

/// What is noted of a service once all rules were sent.
#[derive(Debug)]
pub enum AfterSync {
    /// The service is gone and forgotten.
    Forget,
    /// The texts of the service and its endpoints.
    Note { service_text: String, endpoint_text: String },
}

/// How far the work has come. What the next rules are made of stands in it.
#[derive(Debug)]
pub enum NftWork {
    /// The rules that remove a deleted service are made.
    DeleteRules { service: ServiceTask, sent_endpoint: Option<Endpoint> },
    /// The services that are left are read.
    DeleteServices { service: ServiceTask, rules: String },
    /// The rules for the discovery are made, from the services before and after.
    DeleteDelta { old: Vec<ServiceTask>, new: Vec<ServiceTask>, rules: String },
    /// The rules of a deleted service are being removed.
    Cleaning,
    /// The rules for a new service are made.
    NewRules {
        service: ServiceTask,
        endpoint: Endpoint,
        service_text: String,
        endpoint_text: String,
    },
    /// The services, the new one among them, are read.
    NewServices {
        service: ServiceTask,
        rules: String,
        service_text: String,
        endpoint_text: String,
    },
    /// The rules for the discovery are made, from the services before and after.
    NewDelta {
        old: Vec<ServiceTask>,
        new: Vec<ServiceTask>,
        rules: String,
        service_text: String,
        endpoint_text: String,
    },
    /// The rules for the difference of the endpoints are made.
    DiffRules {
        service: ServiceTask,
        old_endpoint: Endpoint,
        endpoint: Endpoint,
        service_text: String,
        endpoint_text: String,
    },
    /// The rules for a service are being sent.
    Sending { service_text: String, endpoint_text: String },
    /// All services and endpoints are read.
    Listing { after: AfterSync },
    /// All rules are made.
    FullRules { after: AfterSync, services: Vec<ServiceTask>, endpoints: Vec<Endpoint> },
    /// All rules are being sent, in two phases.
    TwoPhase { after: AfterSync, discovery: String },
    /// The rules for the discovery are being sent.
    Refreshing { after: AfterSync },
    Ended,
}

/// What is to be done next, with what stands in the work.
#[derive(Debug)]
pub enum NftAction {
    GenerateDelete,
    GenerateUpdate,
    GenerateDiff,
    GenerateDelta,
    GenerateFull,
    ListServices,
    ListAll,
    /// Send the message to each worker.
    Send(RksMessage),
    /// Send all rules to each worker, and to those that got them the maps.
    SendTwoPhase { full: RksMessage, map_init: RksMessage },
    /// Send the message to each worker, and both phases again to those that missed them.
    Refresh { message: RksMessage, retry: Vec<String> },
    /// The work ended, well or badly.
    Finish(bool),
}

/// What an action came to.
#[derive(Debug)]
pub enum NftEvent {
    /// The rules. No text stands for rules to remove a service that could not be made.
    Generated(String),
    Services(Vec<ServiceTask>),
    Lists { services: Vec<ServiceTask>, endpoints: Vec<Endpoint> },
    FullGenerated { map_init: String, full: String, discovery: String },
    /// The workers that the message did not reach.
    Sent(Vec<String>),
    /// Each worker, and which phases reached it.
    TwoPhaseSent(Vec<(String, bool, bool)>),
    Failed,
}

/// Whether the work waits for an event of that kind. Anything can fail.
pub open spec fn awaits(st: NftWork, event: NftEvent) -> bool {
    event is Failed || match st {
        NftWork::DeleteRules { .. } => event is Generated,
        NftWork::DeleteServices { .. } => event is Services,
        NftWork::DeleteDelta { .. } => event is Generated,
        NftWork::Cleaning => event is Sent,
        NftWork::NewRules { .. } => event is Generated,
        NftWork::NewServices { .. } => event is Services,
        NftWork::NewDelta { .. } => event is Generated,
        NftWork::DiffRules { .. } => event is Generated,
        NftWork::Sending { .. } => event is Sent,
        NftWork::Listing { .. } => event is Lists,
        NftWork::FullRules { .. } => event is FullGenerated,
        NftWork::TwoPhase { .. } => event is TwoPhaseSent,
        NftWork::Refreshing { .. } => event is Sent,
        NftWork::Ended => false,
    }
}

pub open spec fn finishes(r: (NftWork, NftAction), ok: bool) -> bool {
    r.0 is Ended && r.1 == NftAction::Finish(ok)
}

/// Whether all rules are sent next.
pub open spec fn syncs(r: (NftWork, NftAction), after: AfterSync) -> bool {
    r.0 == (NftWork::Listing { after }) && r.1 is ListAll
}

/// Whether the endpoints are those of the text; without a text they are without addresses.
pub open spec fn is_endpoint(
    e: Endpoint,
    text: Seq<char>,
    parsed: Option<Endpoint>,
    service: ServiceTaskView,
) -> bool {
    if text.len() == 0 {
        e.deep_view() == nftrules_controller::empty_endpoint(service)
    } else {
        parsed == Some(e)
    }
}

/// What the work on a deleted service begins with, from the texts that were last sent and what
/// they were read as.
pub open spec fn begins_deleted(
    sent: (Seq<char>, Seq<char>),
    old_service: Option<ServiceTask>,
    old_endpoint: Option<Endpoint>,
    r: (NftWork, NftAction),
) -> bool {
    match old_service {
        Some(service) if sent.0.len() > 0 => {
            let sent_endpoint = if sent.1.len() == 0 {
                None
            } else {
                old_endpoint
            };
            r.0 == (NftWork::DeleteRules { service, sent_endpoint }) && r.1 is GenerateDelete
        },
        _ => syncs(r, AfterSync::Forget),
    }
}

/// What the work on a service begins with, from the texts that were last sent, what they were
/// read as, and the service as it is.
pub open spec fn begins(
    sent: (Seq<char>, Seq<char>),
    old_service: Option<ServiceTask>,
    old_endpoint: Option<Endpoint>,
    service: ServiceTask,
    service_text: String,
    endpoint: Option<Endpoint>,
    endpoint_text: String,
    r: (NftWork, NftAction),
) -> bool {
    let old = match old_service {
        Some(s) => Some(s.deep_view()),
        None => None,
    };
    let plan = nftrules_controller::plan_for(
        sent,
        (service_text@, endpoint_text@),
        old,
        service.deep_view(),
    );
    if plan is Unchanged {
        finishes(r, true)
    } else if endpoint_text@.len() > 0 && endpoint is None {
        finishes(r, false)
    } else {
        match plan {
            NftPlan::Unchanged => false,
            NftPlan::FirstSeen => r.1 is GenerateUpdate && (r.0 matches NftWork::NewRules {
                service: s,
                endpoint: e,
                service_text: st,
                endpoint_text: et,
            } && s == service && st == service_text && et == endpoint_text && is_endpoint(
                e,
                endpoint_text@,
                endpoint,
                service.deep_view(),
            )),
            NftPlan::Unreadable => finishes(r, false),
            NftPlan::FullSync => syncs(r, AfterSync::Note { service_text, endpoint_text }),
            NftPlan::EndpointDiff => if sent.1.len() > 0 && old_endpoint is None {
                finishes(r, false)
            } else {
                r.1 is GenerateDiff && (r.0 matches NftWork::DiffRules {
                    service: s,
                    old_endpoint: oe,
                    endpoint: e,
                    service_text: st,
                    endpoint_text: et,
                } && s == service && st == service_text && et == endpoint_text && is_endpoint(
                    e,
                    endpoint_text@,
                    endpoint,
                    service.deep_view(),
                ) && is_endpoint(oe, sent.1, old_endpoint, old->0))
            },
        }
    }
}

pub open spec fn two(first: Seq<char>, second: Seq<char>) -> Seq<Seq<char>> {
    seq![first, second]
}

/// Whether the two payloads are merged, in order, and sent.
pub open spec fn sends_merged(
    first: Seq<char>,
    second: Seq<char>,
    next: NftWork,
    r: (NftWork, NftAction),
) -> bool {
    exists|m: Result<String, nftrules_controller::MergeError>| #[trigger]
        nftrules_controller::is_merger(two(first, second), m) && match m {
            Ok(rules) => r.0 == next && r.1 == NftAction::Send(
                RksMessage::UpdateNftablesRules(rules),
            ),
            Err(_) => finishes(r, false),
        }
}

/// What follows an event.
pub open spec fn follows(st: NftWork, event: NftEvent, r: (NftWork, NftAction)) -> bool {
    match (st, event) {
        (NftWork::DeleteRules { service, sent_endpoint }, NftEvent::Generated(rules)) => {
            if rules@.len() == 0 {
                syncs(r, AfterSync::Forget)
            } else {
                r.0 == (NftWork::DeleteServices { service, rules }) && r.1 is ListServices
            }
        },
        (NftWork::DeleteServices { service, rules }, NftEvent::Services(services)) => {
            r.1 is GenerateDelta && (r.0 matches NftWork::DeleteDelta { old, new, rules: q } && new
                == services && q == rules && old.deep_view() == nftrules_controller::with_service(
                services.deep_view(),
                service.deep_view(),
            ))
        },
        (NftWork::DeleteDelta { old, new, rules }, NftEvent::Generated(discovery)) => sends_merged(
            discovery@,
            rules@,
            NftWork::Cleaning,
            r,
        ),
        (
            NftWork::NewRules { service, endpoint, service_text, endpoint_text },
            NftEvent::Generated(rules),
        ) => r.0 == (NftWork::NewServices { service, rules, service_text, endpoint_text }) && r.1
            is ListServices,
        (
            NftWork::NewServices { service, rules, service_text, endpoint_text },
            NftEvent::Services(services),
        ) => r.1 is GenerateDelta && (r.0 matches NftWork::NewDelta {
            old,
            new,
            rules: q,
            service_text: s,
            endpoint_text: e,
        } && new == services && q == rules && s == service_text && e == endpoint_text
            && old.deep_view() == services.deep_view().filter(
            nftrules_controller::other_service(service.deep_view()),
        )),
        (
            NftWork::NewDelta { old, new, rules, service_text, endpoint_text },
            NftEvent::Generated(discovery),
        ) => sends_merged(
            rules@,
            discovery@,
            NftWork::Sending { service_text, endpoint_text },
            r,
        ),
        (
            NftWork::DiffRules { service, old_endpoint, endpoint, service_text, endpoint_text },
            NftEvent::Generated(rules),
        ) => r.0 == (NftWork::Sending { service_text, endpoint_text }) && r.1 == NftAction::Send(
            RksMessage::UpdateNftablesRules(rules),
        ),
        (NftWork::Listing { after }, NftEvent::Lists { services, endpoints }) => r.0 == (
        NftWork::FullRules { after, services, endpoints }) && r.1 is GenerateFull,
        (
            NftWork::FullRules { after, services, endpoints },
            NftEvent::FullGenerated { map_init, full, discovery },
        ) => r.0 == (NftWork::TwoPhase { after, discovery }) && r.1 == (NftAction::SendTwoPhase {
            full: RksMessage::SetNftablesRules(full),
            map_init: RksMessage::SetNftablesRules(map_init),
        }),
        (NftWork::TwoPhase { after, discovery }, NftEvent::TwoPhaseSent(results)) => r.0 == (
        NftWork::Refreshing { after }) && (r.1 matches NftAction::Refresh { message, retry }
            && message == RksMessage::UpdateNftablesRules(discovery) && text::texts(retry@)
            == nftrules_controller::failed_phases(results@, results@.len() as int)),
        (_, NftEvent::Sent(failed)) => finishes(r, failed@.len() == 0),
        (_, NftEvent::Failed) => finishes(r, false),
        _ => false,
    }
}

/// The workers that are out of sync after an event: those that rules did not reach are added.
pub open spec fn out_of_sync_after(before: Set<Seq<char>>, event: NftEvent) -> Set<Seq<char>> {
    match event {
        NftEvent::Sent(failed) => nftrules_controller::with_all(before, text::texts(failed@)),
        NftEvent::TwoPhaseSent(results) => nftrules_controller::with_all(
            before,
            nftrules_controller::failed_phases(results@, results@.len() as int),
        ),
        _ => before,
    }
}

pub open spec fn noted(
    m: Map<Seq<char>, (String, String)>,
    key: Seq<char>,
    after: AfterSync,
) -> Map<Seq<char>, (String, String)> {
    match after {
        AfterSync::Forget => m.remove(key),
        AfterSync::Note { service_text, endpoint_text } => m.insert(
            key,
            (service_text, endpoint_text),
        ),
    }
}

/// The texts that were last sent after an event: they change once all workers were reached.
pub open spec fn snapshots_after(
    before: Map<Seq<char>, (String, String)>,
    key: Seq<char>,
    st: NftWork,
    event: NftEvent,
) -> Map<Seq<char>, (String, String)> {
    match (st, event) {
        (NftWork::Cleaning, NftEvent::Sent(failed)) if failed@.len() == 0 => before.remove(key),
        (
            NftWork::Sending { service_text, endpoint_text },
            NftEvent::Sent(failed),
        ) if failed@.len() == 0 => before.insert(key, (service_text, endpoint_text)),
        (NftWork::Refreshing { after }, NftEvent::Sent(failed)) if failed@.len() == 0 => noted(
            before,
            key,
            after,
        ),
        _ => before,
    }
}

fn finish(ok: bool) -> (r: (NftWork, NftAction))
    ensures
        finishes(r, ok),
{
    (NftWork::Ended, NftAction::Finish(ok))
}

fn full_sync(after: AfterSync) -> (r: (NftWork, NftAction))
    ensures
        syncs(r, after),
{
    (NftWork::Listing { after }, NftAction::ListAll)
}

fn send_merged(first: String, second: String, next: NftWork) -> (r: (NftWork, NftAction))
    ensures
        sends_merged(first@, second@, next, r),
{
    let ghost p = two(first@, second@);
    let mut payloads: Vec<String> = Vec::new();
    payloads.push(first);
    payloads.push(second);
    assert(text::texts(payloads@) =~= p);
    let m = merge_incremental_payloads(&payloads);
    let ghost g = m;
    assert(nftrules_controller::is_merger(p, g));
    match m {
        Ok(rules) => (next, NftAction::Send(RksMessage::UpdateNftablesRules(rules))),
        Err(_) => finish(false),
    }
}

impl NftablesController {
    /// Begins the work on a service that is gone. Its rules are removed when the copy that was
    /// last sent can be read; otherwise all rules are sent.
    pub fn work_on_deleted(
        &self,
        key: &str,
        old_service: Option<ServiceTask>,
        old_endpoint: Option<Endpoint>,
    ) -> (r: (NftWork, NftAction))
        ensures
            begins_deleted(
                nftrules_controller::snapshot_of(self.service_snapshots@, key@),
                old_service,
                old_endpoint,
                r,
            ),
    {
        let (service_text, endpoint_text) = self.snapshot(key);
        match old_service {
            Some(service) => {
                if service_text.as_str().is_empty() {
                    return full_sync(AfterSync::Forget);
                }
                let sent_endpoint = if endpoint_text.as_str().is_empty() {
                    None
                } else {
                    old_endpoint
                };
                (NftWork::DeleteRules { service, sent_endpoint }, NftAction::GenerateDelete)
            },
            None => full_sync(AfterSync::Forget),
        }
    }

    /// Begins the work on a service that is there. A service that was never sent gets rules of
    /// its own, a new specification calls for all rules, and new endpoints for the difference.
    pub fn work_on_service(
        &self,
        key: &str,
        old_service: Option<ServiceTask>,
        old_endpoint: Option<Endpoint>,
        service: ServiceTask,
        service_text: String,
        endpoint: Option<Endpoint>,
        endpoint_text: String,
    ) -> (r: (NftWork, NftAction))
        ensures
            begins(
                nftrules_controller::snapshot_of(self.service_snapshots@, key@),
                old_service,
                old_endpoint,
                service,
                service_text,
                endpoint,
                endpoint_text,
                r,
            ),
    {
        let plan = self.plan_service(
            key,
            &service_text,
            &endpoint_text,
            old_service.as_ref(),
            &service,
        );
        if plan == NftPlan::Unchanged {
            return finish(true);
        }
        let endpoint = if endpoint_text.as_str().is_empty() {
            empty_endpoint_for_service(&service)
        } else {
            match endpoint {
                Some(e) => e,
                None => {
                    return finish(false);
                },
            }
        };
        match plan {
            NftPlan::FirstSeen => (
                NftWork::NewRules { service, endpoint, service_text, endpoint_text },
                NftAction::GenerateUpdate,
            ),
            NftPlan::FullSync => full_sync(AfterSync::Note { service_text, endpoint_text }),
            NftPlan::EndpointDiff => {
                let (_, sent_text) = self.snapshot(key);
                let old_endpoint = if sent_text.as_str().is_empty() {
                    match &old_service {
                        Some(s) => empty_endpoint_for_service(s),
                        None => {
                            return finish(false);
                        },
                    }
                } else {
                    match old_endpoint {
                        Some(e) => e,
                        None => {
                            return finish(false);
                        },
                    }
                };
                (
                    NftWork::DiffRules {
                        service,
                        old_endpoint,
                        endpoint,
                        service_text,
                        endpoint_text,
                    },
                    NftAction::GenerateDiff,
                )
            },
            _ => finish(false),
        }
    }

    fn note(&mut self, key: &String, after: AfterSync)
        ensures
            final(self).service_snapshots@ == noted(old(self).service_snapshots@, key@, after),
            final(self).out_of_sync == old(self).out_of_sync,
            final(self).recent_failed == old(self).recent_failed,
            final(self).queue == old(self).queue,
    {
        match after {
            AfterSync::Forget => self.service_removed(key.as_str()),
            AfterSync::Note { service_text, endpoint_text } => self.service_sent(
                key.clone(),
                service_text,
                endpoint_text,
            ),
        }
    }

    /// What follows an event in the work on a service. Workers that rules did not reach are noted
    /// as out of sync, and what was sent is noted once all were reached.
    pub fn work_step(&mut self, key: &String, st: NftWork, event: NftEvent) -> (r: (
        NftWork,
        NftAction,
    ))
        requires
            awaits(st, event),
        ensures
            follows(st, event, r),
            final(self).out_of_sync@ == out_of_sync_after(old(self).out_of_sync@, event),
            final(self).service_snapshots@ == snapshots_after(
                old(self).service_snapshots@,
                key@,
                st,
                event,
            ),
            final(self).recent_failed == old(self).recent_failed,
            final(self).queue == old(self).queue,
    {
        match (st, event) {
            (NftWork::DeleteRules { service, sent_endpoint: _ }, NftEvent::Generated(rules)) => {
                if rules.as_str().is_empty() {
                    full_sync(AfterSync::Forget)
                } else {
                    (NftWork::DeleteServices { service, rules }, NftAction::ListServices)
                }
            },
            (NftWork::DeleteServices { service, rules }, NftEvent::Services(new)) => {
                let old = services_with(&new, &service);
                (NftWork::DeleteDelta { old, new, rules }, NftAction::GenerateDelta)
            },
            (NftWork::DeleteDelta { rules, .. }, NftEvent::Generated(discovery)) => {
                send_merged(discovery, rules, NftWork::Cleaning)
            },
            (
                NftWork::NewRules { service, service_text, endpoint_text, .. },
                NftEvent::Generated(rules),
            ) => (
                NftWork::NewServices { service, rules, service_text, endpoint_text },
                NftAction::ListServices,
            ),
            (
                NftWork::NewServices { service, rules, service_text, endpoint_text },
                NftEvent::Services(new),
            ) => {
                let old = services_without(&new, &service);
                (
                    NftWork::NewDelta { old, new, rules, service_text, endpoint_text },
                    NftAction::GenerateDelta,
                )
            },
            (
                NftWork::NewDelta { rules, service_text, endpoint_text, .. },
                NftEvent::Generated(discovery),
            ) => send_merged(
                rules,
                discovery,
                NftWork::Sending { service_text, endpoint_text },
            ),
            (
                NftWork::DiffRules { service_text, endpoint_text, .. },
                NftEvent::Generated(rules),
            ) => (
                NftWork::Sending { service_text, endpoint_text },
                NftAction::Send(RksMessage::UpdateNftablesRules(rules)),
            ),
            (NftWork::Listing { after }, NftEvent::Lists { services, endpoints }) => (
                NftWork::FullRules { after, services, endpoints },
                NftAction::GenerateFull,
            ),
            (
                NftWork::FullRules { after, .. },
                NftEvent::FullGenerated { map_init, full, discovery },
            ) => (
                NftWork::TwoPhase { after, discovery },
                NftAction::SendTwoPhase {
                    full: RksMessage::SetNftablesRules(full),
                    map_init: RksMessage::SetNftablesRules(map_init),
                },
            ),
            (NftWork::TwoPhase { after, discovery }, NftEvent::TwoPhaseSent(results)) => {
                let retry = self.two_phase_results(&results);
                let message = RksMessage::UpdateNftablesRules(discovery);
                (NftWork::Refreshing { after }, NftAction::Refresh { message, retry })
            },
            (st, NftEvent::Sent(failed)) => {
                let ok = self.incremental_results(&failed);
                if ok {
                    match st {
                        NftWork::Cleaning => self.note(key, AfterSync::Forget),
                        NftWork::Sending { service_text, endpoint_text } => self.note(
                            key,
                            AfterSync::Note { service_text, endpoint_text },
                        ),
                        NftWork::Refreshing { after } => self.note(key, after),
                        _ => {},
                    }
                }
                finish(ok)
            },
            _ => finish(false),
        }
    }
}

/// Rules that are sent again to the workers that missed them.
#[derive(Debug)]
pub struct RuleRetry {
    /// The number of times that they were sent again.
    pub attempt: u64,
    /// The workers that still miss them.
    pub pending: TextSet,
}

/// The workers, among the first `n`, that got all rules, the maps and the discovery.
pub open spec fn recovered(results: Seq<(String, bool, bool, bool)>, n: int) -> Seq<Seq<char>>
    decreases n,
{
    if n <= 0 {
        Seq::empty()
    } else {
        let rest = recovered(results, n - 1);
        let (node, full, map_init, discovery) = results[n - 1];
        if full && map_init && discovery {
            rest.push(node@)
        } else {
            rest
        }
    }
}

impl RuleRetry {
    /// Nothing was sent again yet.
    pub fn new(failed: &Vec<String>) -> (r: Self)
        ensures
            r.attempt == 0,
            r.pending@ == text::texts(failed@).to_set(),
    {
        let mut pending = TextSet::new();
        record_all(&mut pending, failed);
        assert(pending@ =~= text::texts(failed@).to_set());
        RuleRetry { attempt: 0, pending }
    }

    /// The wait before the rules are sent again, in milliseconds, and the workers that they are
    /// sent to; nothing when no worker misses them or they were sent often enough.
    pub fn next(&mut self) -> (r: Option<(u64, Vec<String>)>)
        ensures
            match r {
                Some((wait, nodes)) => {
                    &&& old(self).attempt < MAX_SEND_ATTEMPTS
                    &&& final(self).attempt == old(self).attempt + 1
                    &&& wait == 300 * final(self).attempt
                    &&& nodes@.len() > 0
                    &&& text::texts(nodes@).to_set() == old(self).pending@
                },
                None => {
                    &&& final(self).attempt == old(self).attempt
                    &&& old(self).attempt >= MAX_SEND_ATTEMPTS || old(self).pending@ == Set::<
                        Seq<char>,
                    >::empty()
                },
            },
            final(self).pending == old(self).pending,
    {
        if self.attempt >= MAX_SEND_ATTEMPTS {
            return None;
        }
        let nodes = self.pending.names();
        if nodes.len() == 0 {
            assert(text::texts(nodes@).to_set() =~= Set::<Seq<char>>::empty());
            return None;
        }
        self.attempt = self.attempt + 1;
        match retry_delay(self.attempt) {
            Some(wait) => Some((wait, nodes)),
            None => None,
        }
    }
}

impl NftablesController {
    /// Rules were sent again: a worker that got all of them is in sync.
    pub fn retry_results(
        &mut self,
        retry: &mut RuleRetry,
        results: &Vec<(String, bool, bool, bool)>,
    )
        ensures
            final(self).out_of_sync@ == nftrules_controller::without_all(
                old(self).out_of_sync@,
                recovered(results@, results@.len() as int),
            ),
            final(retry).pending@ == nftrules_controller::without_all(
                old(retry).pending@,
                recovered(results@, results@.len() as int),
            ),
            final(retry).attempt == old(retry).attempt,
            final(self).service_snapshots == old(self).service_snapshots,
            final(self).recent_failed == old(self).recent_failed,
            final(self).queue == old(self).queue,
    {
        let mut names: Vec<String> = Vec::new();
        assert(text::texts(names@) =~= Seq::<Seq<char>>::empty());
        for i in 0..results.len()
            invariant
                text::texts(names@) == recovered(results@, i as int),
        {
            if results[i].1 && results[i].2 && results[i].3 {
                let ghost before = text::texts(names@);
                names.push(results[i].0.clone());
                assert(text::texts(names@) =~= before.push(results@[i as int].0@));
            }
        }
        self.two_phase_recovered(&mut retry.pending, &names);
    }

    /// The wait before a message is sent again to the workers that missed one, in milliseconds,
    /// after it was sent again the given number of times; nothing when it was sent often enough,
    /// or when no worker misses one anymore.
    pub fn next_message_retry(&self, attempts: u64) -> (r: Option<u64>)
        ensures
            r == if attempts < MAX_SEND_ATTEMPTS && (attempts == 0 || self.recent_failed@ != Set::<
                Seq<char>,
            >::empty()) {
                Some((300 * (attempts + 1)) as u64)
            } else {
                None
            },
    {
        if attempts >= MAX_SEND_ATTEMPTS {
            return None;
        }
        let missing = self.recent_failed.names();
        if attempts > 0 && missing.len() == 0 {
            assert(text::texts(missing@).to_set() =~= Set::<Seq<char>>::empty());
            return None;
        }
        if missing.len() > 0 {
            assert(text::texts(missing@)[0] == missing@[0]@);
            assert(self.recent_failed@.contains(missing@[0]@));
        }
        retry_delay(attempts + 1)
    }

    /// The workers that a message is sent to again.
    pub fn message_targets(&self) -> (r: Vec<String>)
        ensures
            text::texts(r@).to_set() == self.recent_failed@,
            text::texts(r@).no_duplicates(),
    {
        self.recent_failed.names()
    }
}

/// A worker that missed rules is in sync again once it got all of them, and is not sent them
/// anymore; one that missed some of them stays out of sync.
pub proof fn law_recovered_worker_is_in_sync(
    out_of_sync: Set<Seq<char>>,
    failed: Seq<Seq<char>>,
    results: Seq<(String, bool, bool, bool)>,
    node: Seq<char>,
)
    requires
        failed.contains(node),
    ensures
        ({
            let got = recovered(results, results.len() as int);
            let noted = nftrules_controller::with_all(out_of_sync, failed);
            &&& nftrules_controller::without_all(noted, got).contains(node) <==> !got.contains(node)
            &&& nftrules_controller::without_all(failed.to_set(), got).contains(node)
                <==> !got.contains(node)
        }),
{
}

/// Work that fails changes nothing of what is noted as sent: the service is worked on again from
/// where it was.
pub proof fn law_failed_work_notes_nothing(
    m: Map<Seq<char>, (String, String)>,
    key: Seq<char>,
    st: NftWork,
    event: NftEvent,
    r: (NftWork, NftAction),
)
    requires
        awaits(st, event),
        follows(st, event, r),
        !finishes(r, true),
    ensures
        snapshots_after(m, key, st, event) == m,
{
}

/// Work that ends well notes the service as it was sent, and the same service then calls for
/// nothing; a service that is gone is forgotten, and is new when it comes back.
pub proof fn law_finished_work_is_noted(
    m: Map<Seq<char>, (String, String)>,
    key: Seq<char>,
    st: NftWork,
    event: NftEvent,
    r: (NftWork, NftAction),
    old_service: Option<ServiceTaskView>,
    service: ServiceTaskView,
)
    requires
        awaits(st, event),
        follows(st, event, r),
        finishes(r, true),
    ensures
        ({
            let after = match st {
                NftWork::Cleaning => AfterSync::Forget,
                NftWork::Sending { service_text, endpoint_text } => AfterSync::Note {
                    service_text,
                    endpoint_text,
                },
                NftWork::Refreshing { after } => after,
                _ => AfterSync::Forget,
            };
            let sent = nftrules_controller::snapshot_of(snapshots_after(m, key, st, event), key);
            &&& st is Cleaning || st is Sending || st is Refreshing
            &&& after matches AfterSync::Note { service_text, endpoint_text }
                ==> nftrules_controller::plan_for(
                sent,
                (service_text@, endpoint_text@),
                old_service,
                service,
            ) is Unchanged
            &&& after is Forget ==> sent == (Seq::<char>::empty(), Seq::<char>::empty())
        }),
{
}

/// The number of events that the work waits for at most.
pub open spec fn events_left(st: NftWork) -> nat {
    match st {
        NftWork::DeleteRules { .. } => 5,
        NftWork::DeleteServices { .. } => 3,
        NftWork::DeleteDelta { .. } => 2,
        NftWork::Cleaning => 1,
        NftWork::NewRules { .. } => 4,
        NftWork::NewServices { .. } => 3,
        NftWork::NewDelta { .. } => 2,
        NftWork::DiffRules { .. } => 2,
        NftWork::Sending { .. } => 1,
        NftWork::Listing { .. } => 4,
        NftWork::FullRules { .. } => 3,
        NftWork::TwoPhase { .. } => 2,
        NftWork::Refreshing { .. } => 1,
        NftWork::Ended => 0,
    }
}

/// The work on a service comes to its end, and ends once.
pub proof fn law_work_ends(st: NftWork, event: NftEvent, r: (NftWork, NftAction))
    requires
        !(st is Ended),
        awaits(st, event),
        follows(st, event, r),
    ensures
        events_left(r.0) < events_left(st),
        r.0 is Ended <==> r.1 is Finish,
{
}

/// A service that did not change needs no work. One whose endpoints cannot be read fails, but for
/// one that did not change.
pub proof fn law_unchanged_service_needs_no_work(
    c: NftablesController,
    key: &str,
    old_service: Option<ServiceTask>,
    old_endpoint: Option<Endpoint>,
    service: ServiceTask,
    service_text: String,
    endpoint: Option<Endpoint>,
    endpoint_text: String,
    sent: (String, String),
    r: (NftWork, NftAction),
)
    requires
        call_ensures(NftablesController::snapshot, (&c, key), sent),
        call_ensures(
            NftablesController::work_on_service,
            (
                &c,
                key,
                old_service,
                old_endpoint,
                service,
                service_text,
                endpoint,
                endpoint_text,
            ),
            r,
        ),
    ensures
        ({
            let same = sent.0@ == service_text@ && sent.1@ == endpoint_text@;
            &&& r.1 == NftAction::Finish(true) <==> same
            &&& !same && endpoint_text@.len() > 0 && endpoint is None ==> r.1 == NftAction::Finish(
                false,
            )
            &&& r.1 is GenerateUpdate ==> !same && sent.0@.len() == 0
            &&& r.1 is ListAll ==> !same && sent.0@.len() > 0 && (old_service matches Some(o)
                && o.spec.deep_view() != service.spec.deep_view())
            &&& r.1 is GenerateDiff ==> !same && sent.0@.len() > 0 && (old_service matches Some(o)
                && o.spec.deep_view() == service.spec.deep_view())
            &&& !same && !(endpoint_text@.len() > 0 && endpoint is None) && sent.0@.len() == 0
                ==> r.1 is GenerateUpdate
            &&& !same && !(endpoint_text@.len() > 0 && endpoint is None) && sent.0@.len() > 0 && (
            old_service matches Some(o) && o.spec.deep_view() != service.spec.deep_view())
                ==> r.1 is ListAll
        }),
{
}

/// A service that is gone has its rules deleted where it was sent and can be read; otherwise
/// everything is set anew.
pub proof fn law_deleted_service_has_its_rules_deleted(
    c: NftablesController,
    key: &str,
    old_service: Option<ServiceTask>,
    old_endpoint: Option<Endpoint>,
    sent: (String, String),
    r: (NftWork, NftAction),
)
    requires
        call_ensures(NftablesController::snapshot, (&c, key), sent),
        call_ensures(
            NftablesController::work_on_deleted,
            (&c, key, old_service, old_endpoint),
            r,
        ),
    ensures
        r.1 is GenerateDelete <==> old_service is Some && sent.0@.len() > 0,
        r.1 is ListAll <==> !(r.1 is GenerateDelete),
        r.1 is GenerateDelete ==> (r.0 matches NftWork::DeleteRules { service, sent_endpoint }
            && old_service == Some(service) && (sent.1@.len() == 0 ==> sent_endpoint is None) && (
        sent.1@.len() > 0 ==> sent_endpoint == old_endpoint)),
{
}

/// What was sent to all workers is noted as sent, and the work has succeeded; when a worker could
/// not be reached nothing is noted, the work has failed, and the worker is out of sync.
pub proof fn law_sent_rules_are_noted(
    c: &mut NftablesController,
    key: String,
    service_text: String,
    endpoint_text: String,
    failed: Vec<String>,
    r: (NftWork, NftAction),
    node: Seq<char>,
)
    requires
        call_ensures(
            NftablesController::work_step,
            (c, &key, NftWork::Sending { service_text, endpoint_text }, NftEvent::Sent(failed)),
            r,
        ),
    ensures
        r.0 is Ended,
        r.1 == NftAction::Finish(failed@.len() == 0),
        failed@.len() == 0 ==> final(c).service_snapshots@.contains_key(key@)
            && final(c).service_snapshots@[key@] == (service_text, endpoint_text),
        failed@.len() > 0 ==> final(c).service_snapshots@ == old(c).service_snapshots@,
        final(c).out_of_sync@.contains(node) <==> old(c).out_of_sync@.contains(node) || text::texts(
            failed@,
        ).contains(node),
{
    let t = text::texts(failed@);
    assert(t.to_set().contains(node) <==> t.contains(node));
}

/// A service whose rules were deleted everywhere is forgotten, and it is remembered while a worker
/// still has them.
pub proof fn law_cleaned_service_is_forgotten(
    c: &mut NftablesController,
    key: String,
    failed: Vec<String>,
    r: (NftWork, NftAction),
)
    requires
        call_ensures(
            NftablesController::work_step,
            (c, &key, NftWork::Cleaning, NftEvent::Sent(failed)),
            r,
        ),
    ensures
        r.1 == NftAction::Finish(failed@.len() == 0),
        failed@.len() == 0 ==> !final(c).service_snapshots@.contains_key(key@),
        failed@.len() > 0 ==> final(c).service_snapshots@ == old(c).service_snapshots@,
{
}

/// Where everything is set anew, the tables and the maps are sent first, and the services after
/// them; workers that missed the first part are tried again.
pub proof fn law_everything_is_set_anew_in_two_parts(
    c: &mut NftablesController,
    d: &mut NftablesController,
    key: String,
    after: AfterSync,
    services: Vec<ServiceTask>,
    endpoints: Vec<Endpoint>,
    map_init: String,
    full: String,
    discovery: String,
    results: Vec<(String, bool, bool)>,
    r: (NftWork, NftAction),
    s: (NftWork, NftAction),
)
    requires
        call_ensures(
            NftablesController::work_step,
            (
                c,
                &key,
                NftWork::FullRules { after, services, endpoints },
                NftEvent::FullGenerated { map_init, full, discovery },
            ),
            r,
        ),
        call_ensures(
            NftablesController::work_step,
            (
                d,
                &key,
                NftWork::TwoPhase { after, discovery },
                NftEvent::TwoPhaseSent(results),
            ),
            s,
        ),
    ensures
        r.0 == (NftWork::TwoPhase { after, discovery }),
        r.1 == (NftAction::SendTwoPhase {
            full: RksMessage::SetNftablesRules(full),
            map_init: RksMessage::SetNftablesRules(map_init),
        }),
        s.0 == (NftWork::Refreshing { after }),
        s.1 matches NftAction::Refresh { message, retry } && message
            == RksMessage::UpdateNftablesRules(discovery),
        final(d).service_snapshots@ == old(d).service_snapshots@,
{
}

/// Pending workers are tried three times, after longer and longer waits, and not once none is
/// pending.
pub proof fn law_pending_workers_are_tried_again(
    retry: &mut RuleRetry,
    r: Option<(u64, Vec<String>)>,
)
    requires
        call_ensures(RuleRetry::next, (retry,), r),
    ensures
        old(retry).attempt >= 3 ==> r is None,
        r matches Some(x) ==> x.0 == 300 * (old(retry).attempt + 1) && final(retry).attempt
            == old(retry).attempt + 1 && text::texts(x.1@).to_set() == old(retry).pending@,
        r is None ==> final(retry).attempt == old(retry).attempt,
        final(retry).pending == old(retry).pending,
{
}

} // verus!

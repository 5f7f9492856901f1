//! Runs the pods of jobs to completion.
use vstd::prelude::*;
use crate::clock;
use crate::clock::whole_secs_of;
use crate::controllers::manager::Change;
use crate::protocol::meta::{ObjectMetaView, OwnerReference, OwnerReferenceView, ResourceKind};
use crate::protocol::pod;
use crate::protocol::pod::{
    ContainerSpec, ContainerSpecView, EnvVar, EnvVarView, PodPhase, PodSpecView, PodStatus, PodTask,
    PodTaskView, RestartPolicy,
};
use crate::protocol::value::Value;
use crate::protocol::workload::{
    CompletionMode, ConditionStatus, Job, JobCondition, JobConditionType, JobStatus,
};
use crate::random;
use crate::random::{name_step, new_uid};
use crate::seqs;
use crate::text;
use crate::text::{concat2, concat3, parse_i32, str_eq, to_decimal, to_decimal_signed};

verus! {

/// The controller of jobs.
pub struct JobController;

/// A pod to make for a job.
#[derive(Debug, Clone, Copy, PartialEq, Eq, Structural)]
pub enum PodRequest {
    Plain,
    Indexed { index: usize, attempt: i32 },
}

/// What a reconciliation does, in this order: pods are deleted, pods are made, the job is
/// stored, the job is deleted.
#[derive(Debug)]
pub struct JobPlan {
    /// Names of pods to delete.
    pub terminate: Vec<String>,
    pub create: Vec<PodRequest>,
    pub persist: bool,
    pub delete_job: bool,
}

/// The environment variable that tells a pod its index.
pub open spec fn index_variable() -> Seq<char> {
    "JOB_COMPLETION_INDEX"@
}

/// The earliest and the latest time that is handled, in nanoseconds around the Unix epoch.
pub const TIME_LIMIT: i128 = 10_000_000_000_000_000_000_000;

/// Whether a time is handled.
pub open spec fn valid_time(t: i128) -> bool {
    -TIME_LIMIT <= t <= TIME_LIMIT
}

/// The whole seconds from one time to another.
pub fn seconds_between(from: i128, to: i128) -> (r: i128)
    requires
        valid_time(from),
        valid_time(to),
    ensures
        r == clock::whole_secs(to - from),
{
    whole_secs_of(to - from)
}

/// Whether the pod belongs to the job.
pub open spec fn belongs(p: PodTask, uid: u128) -> bool {
    p.metadata.owner_references matches Some(v) && exists|i: int|
        0 <= i < v@.len() && (#[trigger] v@[i]).kind == ResourceKind::Job && v@[i].uid == uid
}

/// The pods that belong to the job.
pub open spec fn of_job(uid: u128) -> spec_fn(PodTask) -> bool {
    |p: PodTask| belongs(p, uid)
}

pub open spec fn pods_of(pods: Seq<PodTask>, uid: u128) -> Seq<PodTask> {
    pods.filter(of_job(uid))
}

pub open spec fn in_phase(phase: PodPhase) -> spec_fn(PodTask) -> bool {
    |p: PodTask| p.status.phase == phase
}

/// Whether the phase is one of a pod that still runs or will run.
pub open spec fn active_phase(phase: PodPhase) -> bool {
    phase == PodPhase::Running || phase == PodPhase::Pending
}

pub open spec fn is_active() -> spec_fn(PodTask) -> bool {
    |p: PodTask| active_phase(p.status.phase)
}

/// The value of the first index variable at or after `from` that has a value.
pub open spec fn index_in_env(env: Seq<EnvVar>, from: int) -> Option<Seq<char>>
    decreases env.len() - from,
{
    if from < 0 || from >= env.len() {
        None
    } else if env[from].name@ == index_variable() && env[from].value is Some {
        Some(env[from].value->0@)
    } else {
        index_in_env(env, from + 1)
    }
}

/// The index text of the first container at or after `from` that has one.
pub open spec fn index_in(containers: Seq<ContainerSpec>, from: int) -> Option<Seq<char>>
    decreases containers.len() - from,
{
    if from < 0 || from >= containers.len() {
        None
    } else {
        let here = match containers[from].env {
            Some(env) => index_in_env(env@, 0),
            None => None,
        };
        match here {
            Some(t) => Some(t),
            None => index_in(containers, from + 1),
        }
    }
}

/// The text of the pod's index.
pub open spec fn index_text(p: PodTask) -> Option<Seq<char>> {
    match index_in(p.spec.containers@, 0) {
        Some(t) => Some(t),
        None => index_in(p.spec.init_containers@, 0),
    }
}

/// The index of the pod: the number that its index text stands for, when it is not negative.
pub open spec fn completion_index(p: PodTask) -> Option<int> {
    match index_text(p) {
        Some(t) => match text::int_of_text(t) {
            Some(v) => if 0 <= v <= i32::MAX {
                Some(v)
            } else {
                None
            },
            None => None,
        },
        None => None,
    }
}

pub open spec fn succeeded_with(idx: int) -> spec_fn(PodTask) -> bool {
    |p: PodTask| completion_index(p) == Some(idx) && p.status.phase == PodPhase::Succeeded
}

pub open spec fn failed_with(idx: int) -> spec_fn(PodTask) -> bool {
    |p: PodTask| completion_index(p) == Some(idx) && p.status.phase == PodPhase::Failed
}

pub open spec fn active_with(idx: int) -> spec_fn(PodTask) -> bool {
    |p: PodTask| completion_index(p) == Some(idx) && active_phase(p.status.phase)
}

/// For each index, whether a pod succeeded, how many failed, and whether one is active.
pub struct Tally {
    pub succeeded: Seq<bool>,
    pub failed: Seq<int>,
    pub active: Seq<bool>,
}

pub open spec fn tally(owned: Seq<PodTask>, n: nat) -> Tally {
    Tally {
        succeeded: Seq::new(n, |i: int| owned.filter(succeeded_with(i)).len() > 0),
        failed: Seq::new(n, |i: int| owned.filter(failed_with(i)).len() as int),
        active: Seq::new(n, |i: int| owned.filter(active_with(i)).len() > 0),
    }
}

/// The number of true entries.
pub open spec fn count_true(s: Seq<bool>) -> int
    decreases s.len(),
{
    if s.len() == 0 {
        0
    } else {
        count_true(s.drop_last()) + if s.last() {
            1int
        } else {
            0
        }
    }
}

/// The sum of the entries.
pub open spec fn total(s: Seq<int>) -> int
    decreases s.len(),
{
    if s.len() == 0 {
        0
    } else {
        total(s.drop_last()) + s.last()
    }
}

/// The first entry, at or after `from`, above the limit; the length when there is none.
pub open spec fn first_above(s: Seq<int>, limit: int, from: int) -> int
    decreases s.len() - from,
{
    if from < 0 || from >= s.len() {
        s.len() as int
    } else if s[from] > limit {
        from
    } else {
        first_above(s, limit, from + 1)
    }
}

/// Whether the job has the condition.
pub open spec fn has(job: Job, kind: JobConditionType) -> bool {
    exists|i: int|
        0 <= i < job.status.conditions@.len() && (
        #[trigger] job.status.conditions@[i]).condition_type == kind
            && job.status.conditions@[i].status == ConditionStatus::True
}

/// The numbers of succeeded, failed and active pods.
pub struct Counts {
    pub succeeded: int,
    pub failed: int,
    pub active: int,
}

/// The number of indices of an indexed job.
pub open spec fn index_count(job: Job) -> nat {
    if job.spec.completions > 0 {
        job.spec.completions as nat
    } else {
        0
    }
}

pub open spec fn counts(job: Job, owned: Seq<PodTask>) -> Counts {
    if job.spec.completion_mode == CompletionMode::Indexed {
        let t = tally(owned, index_count(job));
        Counts {
            succeeded: count_true(t.succeeded),
            failed: total(t.failed),
            active: count_true(t.active),
        }
    } else {
        Counts {
            succeeded: owned.filter(in_phase(PodPhase::Succeeded)).len() as int,
            failed: owned.filter(in_phase(PodPhase::Failed)).len() as int,
            active: owned.filter(is_active()).len() as int,
        }
    }
}

/// What a reconciliation decides.
pub enum Decision {
    /// An indexed job without indices is complete; its counters are left as they are.
    NothingToRun,
    /// The job ran too long.
    DeadlineExceeded,
    /// Enough pods succeeded.
    Completed,
    /// The pods of one index failed too often.
    IndexFailed(int),
    /// Too many pods failed.
    BackoffExceeded,
    /// The job ended before.
    Ended,
    /// The job goes on.
    Run,
}

/// Whether the job ran longer than it may.
pub open spec fn past_deadline(job: Job, start: int, now: int) -> bool {
    job.spec.active_deadline_seconds matches Some(d) && clock::whole_secs(now - start) >= d
}

/// Whether enough pods succeeded.
pub open spec fn enough(job: Job, c: Counts) -> bool {
    if job.spec.completion_mode == CompletionMode::Indexed {
        c.succeeded == index_count(job)
    } else {
        c.succeeded >= job.spec.completions
    }
}

pub open spec fn decision(job: Job, owned: Seq<PodTask>, start: int, now: int) -> Decision {
    let indexed = job.spec.completion_mode == CompletionMode::Indexed;
    let c = counts(job, owned);
    let t = tally(owned, index_count(job));
    let worst = first_above(t.failed, job.spec.backoff_limit as int, 0);
    if indexed && index_count(job) == 0 {
        Decision::NothingToRun
    } else if past_deadline(job, start, now) {
        Decision::DeadlineExceeded
    } else if enough(job, c) {
        Decision::Completed
    } else if indexed && worst < t.failed.len() {
        Decision::IndexFailed(worst)
    } else if !indexed && c.failed > job.spec.backoff_limit {
        Decision::BackoffExceeded
    } else if has(job, JobConditionType::Complete) || has(job, JobConditionType::Failed) {
        Decision::Ended
    } else {
        Decision::Run
    }
}

/// The number of pods to make: as many as may run at once, but no more than are still
/// needed, less those that are active.
pub open spec fn to_create(job: Job, c: Counts) -> int {
    let parallelism = if job.spec.parallelism > 0 {
        job.spec.parallelism as int
    } else {
        0
    };
    let remaining = job.spec.completions - c.succeeded;
    let want = if remaining < 0 {
        0
    } else if parallelism <= remaining {
        parallelism
    } else {
        remaining
    };
    if want > c.active {
        want - c.active
    } else {
        0
    }
}

/// Whether an index is free for a new pod.
pub open spec fn free_index(t: Tally, limit: int, i: int) -> bool {
    !t.succeeded[i] && !t.active[i] && t.failed[i] <= limit
}

/// The requests for the first free indices below `n`, at most `limit` many.
pub open spec fn index_requests(t: Tally, backoff: int, n: int, limit: int) -> Seq<PodRequest>
    decreases n,
{
    if n <= 0 {
        Seq::empty()
    } else {
        let rest = index_requests(t, backoff, n - 1, limit);
        if rest.len() < limit && free_index(t, backoff, n - 1) {
            rest.push(
                PodRequest::Indexed {
                    index: (n - 1) as usize,
                    attempt: (t.failed[n - 1] + 1) as i32,
                },
            )
        } else {
            rest
        }
    }
}

/// The pods to make.
pub open spec fn requests(job: Job, owned: Seq<PodTask>) -> Seq<PodRequest> {
    let k = to_create(job, counts(job, owned));
    if job.spec.completion_mode == CompletionMode::Indexed {
        let t = tally(owned, index_count(job));
        index_requests(t, job.spec.backoff_limit as int, index_count(job) as int, k)
    } else {
        Seq::new(k as nat, |i: int| PodRequest::Plain)
    }
}

/// Whether a finished job is old enough to be deleted.
pub open spec fn expired(job: Job, now: int) -> bool {
    match job.spec.ttl_seconds_after_finished {
        None => false,
        Some(ttl) => {
            let finish = match job.status.completion_time {
                Some(t) => Some(t),
                None => job.status.start_time,
            };
            finish matches Some(t) && clock::whole_secs(now - t) >= ttl
        },
    }
}

/// The reason, and the message, of a condition.
pub open spec fn is_condition(
    c: JobCondition,
    kind: JobConditionType,
    now: i128,
    reason: Seq<char>,
    message: Seq<char>,
) -> bool {
    &&& c.condition_type == kind
    &&& c.status == ConditionStatus::True
    &&& c.last_transition_time == Some(now)
    &&& c.reason matches Some(r) && r@ == reason
    &&& c.message matches Some(m) && m@ == message
}

/// The status with the counters set.
pub open spec fn counted(s: JobStatus, start: Option<i128>, c: Counts) -> JobStatus {
    JobStatus {
        start_time: start,
        succeeded: c.succeeded as i32,
        failed: c.failed as i32,
        active: c.active as i32,
        ..s
    }
}

/// Whether `after` is `before` ended now with the condition.
pub open spec fn ended(
    before: JobStatus,
    after: JobStatus,
    kind: JobConditionType,
    now: i128,
    reason: Seq<char>,
    message: Seq<char>,
) -> bool {
    &&& after.completion_time == Some(now)
    &&& after.conditions@.len() == before.conditions@.len() + 1
    &&& after.conditions@.drop_last() == before.conditions@
    &&& is_condition(after.conditions@.last(), kind, now, reason, message)
    &&& after == JobStatus {
        completion_time: after.completion_time,
        conditions: after.conditions,
        ..before
    }
}

pub open spec fn complete_message(succeeded: int) -> Seq<char> {
    "Job completed with "@ + text::decimal_int(succeeded) + " succeeded pod(s)"@
}

pub open spec fn deadline_message(deadline: int) -> Seq<char> {
    "Job exceeded the specified active deadline of "@ + text::decimal_int(deadline) + "s"@
}

pub open spec fn backoff_message(limit: int) -> Seq<char> {
    "Job has reached the specified backoff limit of "@ + text::decimal_int(limit)
}

pub open spec fn index_message(idx: int, count: int, limit: int) -> Seq<char> {
    "Indexed completion index "@ + text::decimal(idx as nat) + " exceeded backoff limit ("@
        + text::decimal_int(count) + " > "@ + text::decimal_int(limit) + ")"@
}

/// The names of pods.
pub open spec fn names_of(pods: Seq<PodTask>) -> Seq<Seq<char>> {
    pods.map_values(|p: PodTask| p.metadata.name@)
}

fn belongs_to(p: &PodTask, uid: u128) -> (r: bool)
    ensures
        r == belongs(*p, uid),
{
    match &p.metadata.owner_references {
        Some(owners) => {
            for i in 0..owners.len()
                invariant
                    p.metadata.owner_references == Some(*owners),
                    forall|j: int|
                        0 <= j < i ==> !((#[trigger] owners@[j]).kind == ResourceKind::Job
                            && owners@[j].uid == uid),
            {
                if owners[i].kind == ResourceKind::Job && owners[i].uid == uid {
                    proof {
                        let v = p.metadata.owner_references->0;
                        assert(v@ == owners@);
                        assert(v@[i as int].kind == ResourceKind::Job);
                    }
                    return true;
                }
            }
            false
        },
        None => false,
    }
}

fn index_text_in_env(env: &Vec<EnvVar>) -> (r: Option<String>)
    ensures
        match r {
            Some(t) => index_in_env(env@, 0) == Some(t@),
            None => index_in_env(env@, 0) is None,
        },
{
    let mut i: usize = 0;
    while i < env.len()
        invariant
            i <= env@.len(),
            index_in_env(env@, 0) == index_in_env(env@, i as int),
        decreases env@.len() - i,
    {
        if str_eq(env[i].name.as_str(), "JOB_COMPLETION_INDEX") {
            match &env[i].value {
                Some(v) => {
                    return Some(v.clone());
                },
                None => {},
            }
        }
        i = i + 1;
    }
    None
}

fn index_text_in(containers: &Vec<ContainerSpec>) -> (r: Option<String>)
    ensures
        match r {
            Some(t) => index_in(containers@, 0) == Some(t@),
            None => index_in(containers@, 0) is None,
        },
{
    let mut i: usize = 0;
    while i < containers.len()
        invariant
            i <= containers@.len(),
            index_in(containers@, 0) == index_in(containers@, i as int),
        decreases containers@.len() - i,
    {
        match &containers[i].env {
            Some(env) => match index_text_in_env(env) {
                Some(t) => {
                    return Some(t);
                },
                None => {},
            },
            None => {},
        }
        i = i + 1;
    }
    None
}

impl JobController {
    /// Whether the pod belongs to the job.
    pub fn is_owned_by_job(pod: &PodTask, job: &Job) -> (r: bool)
        ensures
            r == belongs(*pod, job.metadata.uid),
    {
        belongs_to(pod, job.metadata.uid)
    }

    /// Whether the job has the condition.
    pub fn has_condition(job: &Job, kind: JobConditionType) -> (r: bool)
        ensures
            r == has(*job, kind),
    {
        for i in 0..job.status.conditions.len()
            invariant
                forall|j: int|
                    0 <= j < i ==> !((#[trigger] job.status.conditions@[j]).condition_type == kind
                        && job.status.conditions@[j].status == ConditionStatus::True),
        {
            if job.status.conditions[i].condition_type == kind && job.status.conditions[i].status
                == ConditionStatus::True {
                return true;
            }
        }
        false
    }

    /// Extract completion index from Pod template env: `JOB_COMPLETION_INDEX`, as it is set
    /// on the pods of indexed jobs.
    pub fn pod_completion_index(pod: &PodTask) -> (r: Option<usize>)
        ensures
            match r {
                Some(i) => completion_index(*pod) == Some(i as int),
                None => completion_index(*pod) is None,
            },
    {
        let text = match index_text_in(&pod.spec.containers) {
            Some(t) => Some(t),
            None => index_text_in(&pod.spec.init_containers),
        };
        match text {
            Some(t) => match parse_i32(t.as_str()) {
                Some(v) => if v >= 0 {
                    Some(v as usize)
                } else {
                    None
                },
                None => None,
            },
            None => None,
        }
    }

    /// The name of the job that owns the pod.
    pub fn owning_job_name(pod: &PodTask) -> (r: Option<String>)
        ensures
            match r {
                Some(n) => exists|i: int|
                    {
                        &&& pod.metadata.owner_references is Some
                        &&& 0 <= i < pod.metadata.owner_references->0@.len()
                        &&& (#[trigger] pod.metadata.owner_references->0@[i]).kind
                            == ResourceKind::Job
                        &&& pod.metadata.owner_references->0@[i].name == n
                        &&& forall|j: int|
                            0 <= j < i ==> (
                            #[trigger] pod.metadata.owner_references->0@[j]).kind
                                != ResourceKind::Job
                    },
                None => pod.metadata.owner_references is None || forall|j: int|
                    0 <= j < pod.metadata.owner_references->0@.len() ==> (
                    #[trigger] pod.metadata.owner_references->0@[j]).kind != ResourceKind::Job,
            },
    {
        match &pod.metadata.owner_references {
            Some(owners) => {
                for i in 0..owners.len()
                    invariant
                        pod.metadata.owner_references == Some(*owners),
                        forall|j: int|
                            0 <= j < i ==> (
                            #[trigger] pod.metadata.owner_references->0@[j]).kind
                                != ResourceKind::Job,
                {
                    if owners[i].kind == ResourceKind::Job {
                        assert(pod.metadata.owner_references->0@[i as int].kind
                            == ResourceKind::Job);
                        return Some(owners[i].name.clone());
                    }
                }
                None
            },
            None => None,
        }
    }

    /// Whether a finished job is old enough to be deleted.
    pub fn maybe_cleanup_by_ttl(job: &Job, now: i128) -> (r: bool)
        requires
            valid_time(now),
            job.status.completion_time matches Some(t) ==> valid_time(t),
            job.status.start_time matches Some(t) ==> valid_time(t),
        ensures
            r == expired(*job, now as int),
    {
        match job.spec.ttl_seconds_after_finished {
            None => false,
            Some(ttl) => {
                let finish: Option<i128> = match job.status.completion_time {
                    Some(t) => Some(t),
                    None => job.status.start_time,
                };
                match finish {
                    Some(t) => seconds_between(t, now) >= ttl as i128,
                    None => false,
                }
            },
        }
    }

    /// Ends the job as complete.
    pub fn mark_job_complete(job: &mut Job, now: i128)
        ensures
            ended(
                old(job).status,
                final(job).status,
                JobConditionType::Complete,
                now,
                "JobComplete"@,
                complete_message(old(job).status.succeeded as int),
            ),
            *final(job) == (Job { status: final(job).status, ..*old(job) }),
    {
        let count = to_decimal_signed(job.status.succeeded as i64);
        let message = concat3("Job completed with ", count.as_str(), " succeeded pod(s)");
        let ghost before = job.status.conditions@;
        job.status.completion_time = Some(now);
        job.status.conditions.push(
            JobCondition {
                condition_type: JobConditionType::Complete,
                status: ConditionStatus::True,
                last_transition_time: Some(now),
                reason: Some("JobComplete".to_owned()),
                message: Some(message),
            },
        );
        assert(job.status.conditions@.drop_last() =~= before);
    }

    /// Ends the job as failed.
    pub fn mark_job_failed(job: &mut Job, reason: &str, message: String, now: i128)
        ensures
            ended(
                old(job).status,
                final(job).status,
                JobConditionType::Failed,
                now,
                reason@,
                message@,
            ),
            *final(job) == (Job { status: final(job).status, ..*old(job) }),
    {
        let ghost before = job.status.conditions@;
        job.status.completion_time = Some(now);
        job.status.conditions.push(
            JobCondition {
                condition_type: JobConditionType::Failed,
                status: ConditionStatus::True,
                last_transition_time: Some(now),
                reason: Some(reason.to_owned()),
                message: Some(message),
            },
        );
        assert(job.status.conditions@.drop_last() =~= before);
    }

    /// The names of the still active pods among those of the job.
    pub fn terminate_active_pods(pods: &Vec<PodTask>, uid: u128) -> (r: Vec<String>)
        ensures
            text::texts(r@) == names_of(pods_of(pods@, uid).filter(is_active())),
    {
        let ghost po = of_job(uid);
        let ghost pa = is_active();
        let mut out: Vec<String> = Vec::new();
        proof {
            seqs::lemma_filter_none(pods@, po);
            seqs::lemma_filter_none(Seq::<PodTask>::empty(), pa);
            assert(Seq::<PodTask>::empty().take(0) =~= Seq::<PodTask>::empty());
            assert(text::texts(out@) =~= names_of(Seq::<PodTask>::empty()));
        }
        for i in 0..pods.len()
            invariant
                po == of_job(uid),
                pa == is_active(),
                text::texts(out@) == names_of(pods@.take(i as int).filter(po).filter(pa)),
        {
            let ghost before = pods@.take(i as int).filter(po);
            proof {
                seqs::lemma_filter_take(pods@, po, i as int);
                lemma_filter_push(before, pods@[i as int], pa);
            }
            if belongs_to(&pods[i], uid) && (pods[i].status.phase == PodPhase::Running
                || pods[i].status.phase == PodPhase::Pending) {
                let ghost names = text::texts(out@);
                out.push(pods[i].metadata.name.clone());
                assert(text::texts(out@) =~= names.push(pods@[i as int].metadata.name@));
                assert(names_of(before.filter(pa).push(pods@[i as int])) =~= names_of(
                    before.filter(pa),
                ).push(pods@[i as int].metadata.name@));
            }
        }
        out
    }
}

proof fn lemma_filter_push(s: Seq<PodTask>, x: PodTask, p: spec_fn(PodTask) -> bool)
    ensures
        s.push(x).filter(p) == if p(x) {
            s.filter(p).push(x)
        } else {
            s.filter(p)
        },
{
    reveal(Seq::filter);
    assert(s.push(x).drop_last() =~= s);
}

proof fn lemma_count_true_bounds(s: Seq<bool>)
    ensures
        0 <= count_true(s) <= s.len(),
    decreases s.len(),
{
    if s.len() > 0 {
        lemma_count_true_bounds(s.drop_last());
    }
}

fn count_trues(v: &Vec<bool>) -> (r: usize)
    ensures
        r == count_true(v@),
{
    let mut n: usize = 0;
    assert(v@.take(0) =~= Seq::<bool>::empty());
    for i in 0..v.len()
        invariant
            n == count_true(v@.take(i as int)),
            n <= i,
    {
        assert(v@.take(i as int + 1).drop_last() =~= v@.take(i as int));
        if v[i] {
            n = n + 1;
        }
    }
    assert(v@.take(v@.len() as int) =~= v@);
    n
}

proof fn lemma_total_update(s: Seq<int>, i: int, x: int)
    requires
        0 <= i < s.len(),
    ensures
        total(s.update(i, x)) == total(s) - s[i] + x,
    decreases s.len(),
{
    if i == s.len() - 1 {
        assert(s.update(i, x).drop_last() =~= s.drop_last());
    } else {
        lemma_total_update(s.drop_last(), i, x);
        assert(s.update(i, x).drop_last() =~= s.drop_last().update(i, x));
    }
}

proof fn lemma_total_zero(s: Seq<int>)
    requires
        forall|i: int| 0 <= i < s.len() ==> s[i] == 0,
    ensures
        total(s) == 0,
    decreases s.len(),
{
    if s.len() > 0 {
        lemma_total_zero(s.drop_last());
    }
}

/// The numbers of an indexed job, index by index.
struct IndexTally {
    succeeded: Vec<bool>,
    failed: Vec<i32>,
    active: Vec<bool>,
    failed_total: i32,
}

pub open spec fn as_ints(v: Seq<i32>) -> Seq<int> {
    v.map_values(|x: i32| x as int)
}

proof fn lemma_filter_grows(s: Seq<PodTask>, p: spec_fn(PodTask) -> bool, i: int)
    requires
        0 <= i < s.len(),
    ensures
        s.take(i + 1).filter(p).len() == s.take(i).filter(p).len() + if p(s[i]) {
            1int
        } else {
            0
        },
{
    seqs::lemma_filter_take(s, p, i);
}

fn tally_indices(owned: &Vec<&PodTask>, n: usize) -> (r: IndexTally)
    requires
        owned@.len() < i32::MAX,
    ensures
        ({
            let o = owned@.map_values(|p: &PodTask| *p);
            let t = tally(o, n as nat);
            &&& r.succeeded@ == t.succeeded
            &&& as_ints(r.failed@) == t.failed
            &&& r.active@ == t.active
            &&& r.failed_total == total(t.failed)
            &&& r.failed_total <= owned@.len()
            &&& forall|j: int| 0 <= j < n ==> 0 <= #[trigger] r.failed@[j] <= owned@.len()
        }),
{
    let ghost o = owned@.map_values(|p: &PodTask| *p);
    let mut s: Vec<bool> = Vec::new();
    let mut f: Vec<i32> = Vec::new();
    let mut a: Vec<bool> = Vec::new();
    for i in 0..n
        invariant
            s@.len() == i,
            f@.len() == i,
            a@.len() == i,
            forall|j: int| 0 <= j < i ==> !s@[j],
            forall|j: int| 0 <= j < i ==> f@[j] == 0,
            forall|j: int| 0 <= j < i ==> !a@[j],
    {
        s.push(false);
        f.push(0);
        a.push(false);
    }
    let mut failed_total: i32 = 0;
    proof {
        lemma_total_zero(as_ints(f@));
        assert forall|j: int| 0 <= j < n implies o.take(0).filter(succeeded_with(j)).len() == 0
            && o.take(0).filter(failed_with(j)).len() == 0 && o.take(0).filter(active_with(j)).len()
            == 0 by {
            seqs::lemma_filter_none(o, succeeded_with(j));
            seqs::lemma_filter_none(o, failed_with(j));
            seqs::lemma_filter_none(o, active_with(j));
        }
    }
    for i in 0..owned.len()
        invariant
            o == owned@.map_values(|p: &PodTask| *p),
            owned@.len() < i32::MAX,
            s@.len() == n,
            f@.len() == n,
            a@.len() == n,
            forall|j: int|
                0 <= j < n ==> #[trigger] s@[j] == (o.take(i as int).filter(succeeded_with(j)).len()
                    > 0),
            forall|j: int|
                0 <= j < n ==> #[trigger] f@[j] == o.take(i as int).filter(failed_with(j)).len(),
            forall|j: int|
                0 <= j < n ==> #[trigger] a@[j] == (o.take(i as int).filter(active_with(j)).len()
                    > 0),
            forall|j: int| 0 <= j < n ==> 0 <= #[trigger] f@[j] <= i,
            failed_total == total(as_ints(f@)),
            0 <= failed_total <= i,
    {
        let p: &PodTask = owned[i];
        assert(o[i as int] == *p);
        proof {
            assert forall|j: int| 0 <= j < n implies {
                let k = i as int;
                &&& o.take(k + 1).filter(succeeded_with(j)).len() == o.take(k).filter(
                    #[trigger] succeeded_with(j),
                ).len() + if succeeded_with(j)(*p) {
                    1int
                } else {
                    0
                }
                &&& o.take(k + 1).filter(failed_with(j)).len() == o.take(k).filter(
                    failed_with(j),
                ).len() + if failed_with(j)(*p) {
                    1int
                } else {
                    0
                }
                &&& o.take(k + 1).filter(active_with(j)).len() == o.take(k).filter(
                    active_with(j),
                ).len() + if active_with(j)(*p) {
                    1int
                } else {
                    0
                }
            } by {
                lemma_filter_grows(o, succeeded_with(j), i as int);
                lemma_filter_grows(o, failed_with(j), i as int);
                lemma_filter_grows(o, active_with(j), i as int);
            }
        }
        let ghost s0 = s@;
        let ghost f0 = f@;
        let ghost a0 = a@;
        let idx = JobController::pod_completion_index(p);
        match idx {
            Some(k) => {
                if k < n {
                    match p.status.phase {
                        PodPhase::Succeeded => {
                            s.set(k, true);
                        },
                        PodPhase::Failed => {
                            let c: i32 = f[k] + 1;
                            f.set(k, c);
                            proof {
                                lemma_total_update(as_ints(f0), k as int, c as int);
                                assert(as_ints(f@) =~= as_ints(f0).update(k as int, c as int));
                            }
                            failed_total = failed_total + 1;
                        },
                        PodPhase::Running => {
                            a.set(k, true);
                        },
                        PodPhase::Pending => {
                            a.set(k, true);
                        },
                        _ => {},
                    }
                }
            },
            None => {},
        }
        proof {
            assert forall|j: int| 0 <= j < n implies #[trigger] s@[j] == (o.take(i + 1).filter(
                succeeded_with(j),
            ).len() > 0) by {
                assert(s0[j] == (o.take(i as int).filter(succeeded_with(j)).len() > 0));
            }
            assert forall|j: int| 0 <= j < n implies #[trigger] f@[j] == o.take(i + 1).filter(
                failed_with(j),
            ).len() by {
                let w = succeeded_with(j);
                assert(f0[j] == o.take(i as int).filter(failed_with(j)).len());
            }
            assert forall|j: int| 0 <= j < n implies #[trigger] a@[j] == (o.take(i + 1).filter(
                active_with(j),
            ).len() > 0) by {
                let w = succeeded_with(j);
                assert(a0[j] == (o.take(i as int).filter(active_with(j)).len() > 0));
            }
        }
    }
    proof {
        assert(o.take(owned@.len() as int) =~= o);
        let t = tally(o, n as nat);
        assert(s@ =~= t.succeeded);
        assert(as_ints(f@) =~= t.failed);
        assert(a@ =~= t.active);
    }
    IndexTally { succeeded: s, failed: f, active: a, failed_total }
}

/// The references to the pods of the job.
fn collect_owned<'a>(pods: &'a Vec<PodTask>, uid: u128) -> (r: Vec<&'a PodTask>)
    ensures
        r@.map_values(|p: &PodTask| *p) == pods_of(pods@, uid),
        r@.len() <= pods@.len(),
{
    let ghost po = of_job(uid);
    let mut out: Vec<&'a PodTask> = Vec::new();
    proof {
        seqs::lemma_filter_none(pods@, po);
        assert(out@.map_values(|p: &PodTask| *p) =~= Seq::<PodTask>::empty());
    }
    for i in 0..pods.len()
        invariant
            po == of_job(uid),
            out@.map_values(|p: &PodTask| *p) == pods@.take(i as int).filter(po),
            out@.len() <= i,
    {
        proof {
            seqs::lemma_filter_take(pods@, po, i as int);
        }
        if belongs_to(&pods[i], uid) {
            let ghost before = out@.map_values(|p: &PodTask| *p);
            out.push(&pods[i]);
            assert(out@.map_values(|p: &PodTask| *p) =~= before.push(pods@[i as int]));
        }
    }
    out
}

fn count_phases(owned: &Vec<&PodTask>) -> (r: (usize, usize, usize))
    ensures
        ({
            let o = owned@.map_values(|p: &PodTask| *p);
            &&& r.0 == o.filter(in_phase(PodPhase::Succeeded)).len()
            &&& r.1 == o.filter(in_phase(PodPhase::Failed)).len()
            &&& r.2 == o.filter(is_active()).len()
            &&& r.0 <= owned@.len() && r.1 <= owned@.len() && r.2 <= owned@.len()
        }),
{
    let ghost o = owned@.map_values(|p: &PodTask| *p);
    let ghost p1 = in_phase(PodPhase::Succeeded);
    let ghost p2 = in_phase(PodPhase::Failed);
    let ghost p3 = is_active();
    let mut s: usize = 0;
    let mut f: usize = 0;
    let mut a: usize = 0;
    proof {
        seqs::lemma_filter_none(o, p1);
        seqs::lemma_filter_none(o, p2);
        seqs::lemma_filter_none(o, p3);
    }
    for i in 0..owned.len()
        invariant
            o == owned@.map_values(|p: &PodTask| *p),
            p1 == in_phase(PodPhase::Succeeded),
            p2 == in_phase(PodPhase::Failed),
            p3 == is_active(),
            s == o.take(i as int).filter(p1).len(),
            f == o.take(i as int).filter(p2).len(),
            a == o.take(i as int).filter(p3).len(),
            s <= i,
            f <= i,
            a <= i,
    {
        assert(o[i as int] == *owned@[i as int]);
        proof {
            lemma_filter_grows(o, p1, i as int);
            lemma_filter_grows(o, p2, i as int);
            lemma_filter_grows(o, p3, i as int);
        }
        match owned[i].status.phase {
            PodPhase::Succeeded => {
                s = s + 1;
            },
            PodPhase::Failed => {
                f = f + 1;
            },
            PodPhase::Running => {
                a = a + 1;
            },
            PodPhase::Pending => {
                a = a + 1;
            },
            _ => {},
        }
    }
    (s, f, a)
}

fn find_above(v: &Vec<i32>, limit: i32) -> (r: usize)
    ensures
        r == first_above(as_ints(v@), limit as int, 0),
        r <= v@.len(),
{
    let ghost s = as_ints(v@);
    let mut i: usize = 0;
    while i < v.len()
        invariant
            i <= v@.len(),
            s == as_ints(v@),
            first_above(s, limit as int, 0) == first_above(s, limit as int, i as int),
        decreases v@.len() - i,
    {
        assert(s[i as int] == v@[i as int]);
        if v[i] > limit {
            return i;
        }
        i = i + 1;
    }
    i
}

fn request_indices(t: &IndexTally, backoff: i32, n: usize, limit: usize) -> (r: Vec<PodRequest>)
    requires
        t.succeeded@.len() == n,
        t.failed@.len() == n,
        t.active@.len() == n,
        forall|j: int| 0 <= j < n ==> 0 <= #[trigger] t.failed@[j] < i32::MAX,
    ensures
        r@ == index_requests(
            Tally {
                succeeded: t.succeeded@,
                failed: as_ints(t.failed@),
                active: t.active@,
            },
            backoff as int,
            n as int,
            limit as int,
        ),
{
    let ghost g = Tally {
        succeeded: t.succeeded@,
        failed: as_ints(t.failed@),
        active: t.active@,
    };
    let mut out: Vec<PodRequest> = Vec::new();
    for i in 0..n
        invariant
            t.succeeded@.len() == n,
            t.failed@.len() == n,
            t.active@.len() == n,
            forall|j: int| 0 <= j < n ==> 0 <= #[trigger] t.failed@[j] < i32::MAX,
            g.succeeded == t.succeeded@,
            g.failed == as_ints(t.failed@),
            g.active == t.active@,
            out@ == index_requests(g, backoff as int, i as int, limit as int),
    {
        assert(g.failed[i as int] == t.failed@[i as int]);
        if out.len() < limit && !t.succeeded[i] && !t.active[i] && t.failed[i] <= backoff {
            out.push(PodRequest::Indexed { index: i, attempt: t.failed[i] + 1 });
        }
    }
    out
}

fn request_plain(n: usize) -> (r: Vec<PodRequest>)
    ensures
        r@ == Seq::new(n as nat, |i: int| PodRequest::Plain),
{
    let mut out: Vec<PodRequest> = Vec::new();
    for i in 0..n
        invariant
            out@.len() == i,
            forall|j: int| 0 <= j < i ==> out@[j] == PodRequest::Plain,
    {
        out.push(PodRequest::Plain);
    }
    assert(out@ =~= Seq::new(n as nat, |i: int| PodRequest::Plain));
    out
}

fn needed(job: &Job, succeeded: i32, active: i32) -> (r: usize)
    requires
        0 <= succeeded,
        0 <= active,
        job.spec.completions >= 0,
    ensures
        r == to_create(
            *job,
            Counts { succeeded: succeeded as int, failed: 0, active: active as int },
        ),
{
    let parallelism: i32 = if job.spec.parallelism > 0 {
        job.spec.parallelism
    } else {
        0
    };
    let remaining: i32 = job.spec.completions - succeeded;
    let want: i32 = if remaining < 0 {
        0
    } else if parallelism <= remaining {
        parallelism
    } else {
        remaining
    };
    if want > active {
        (want - active) as usize
    } else {
        0
    }
}

/// The plan that only deletes the job, when it is old enough.
pub open spec fn only_cleanup(plan: JobPlan, job: Job, now: int) -> bool {
    &&& plan.terminate@.len() == 0
    &&& plan.create@.len() == 0
    &&& !plan.persist
    &&& plan.delete_job == expired(job, now)
}

/// The plan that stores an ended job and deletes it when it is old enough.
pub open spec fn store_ended(plan: JobPlan, job: Job, now: int) -> bool {
    &&& plan.create@.len() == 0
    &&& plan.persist
    &&& plan.delete_job == expired(job, now)
}

/// What a reconciliation of `before`, started at `start`, makes of the job, and its plan.
pub open spec fn reconciled(
    before: Job,
    after: Job,
    plan: JobPlan,
    pods: Seq<PodTask>,
    start: i128,
    now: i128,
) -> bool {
    let owned = pods_of(pods, before.metadata.uid);
    let c = counts(before, owned);
    let t = tally(owned, index_count(before));
    let begun = JobStatus { start_time: Some(start), ..before.status };
    let s = counted(before.status, Some(start), c);
    let active_names = names_of(owned.filter(is_active()));
    &&& after == Job { status: after.status, ..before }
    &&& match decision(before, owned, start as int, now as int) {
        Decision::NothingToRun => if has(before, JobConditionType::Complete) {
            after.status == begun && only_cleanup(plan, after, now as int)
        } else {
            &&& ended(
                begun,
                after.status,
                JobConditionType::Complete,
                now,
                "JobComplete"@,
                complete_message(before.status.succeeded as int),
            )
            &&& plan.terminate@.len() == 0
            &&& store_ended(plan, after, now as int)
        },
        Decision::DeadlineExceeded => {
            &&& ended(
                s,
                after.status,
                JobConditionType::Failed,
                now,
                "DeadlineExceeded"@,
                deadline_message(before.spec.active_deadline_seconds->0 as int),
            )
            &&& text::texts(plan.terminate@) == active_names
            &&& store_ended(plan, after, now as int)
        },
        Decision::Completed => if has(before, JobConditionType::Complete) {
            after.status == s && only_cleanup(plan, after, now as int)
        } else {
            &&& ended(
                s,
                after.status,
                JobConditionType::Complete,
                now,
                "JobComplete"@,
                complete_message(c.succeeded),
            )
            &&& plan.terminate@.len() == 0
            &&& store_ended(plan, after, now as int)
        },
        Decision::IndexFailed(i) => {
            &&& ended(
                s,
                after.status,
                JobConditionType::Failed,
                now,
                "BackoffLimitExceeded"@,
                index_message(i, t.failed[i], before.spec.backoff_limit as int),
            )
            &&& text::texts(plan.terminate@) == active_names
            &&& store_ended(plan, after, now as int)
        },
        Decision::BackoffExceeded => {
            &&& ended(
                s,
                after.status,
                JobConditionType::Failed,
                now,
                "BackoffLimitExceeded"@,
                backoff_message(before.spec.backoff_limit as int),
            )
            &&& plan.terminate@.len() == 0
            &&& store_ended(plan, after, now as int)
        },
        Decision::Ended => after.status == s && only_cleanup(plan, after, now as int),
        Decision::Run => {
            &&& after.status == s
            &&& plan.terminate@.len() == 0
            &&& plan.create@ == requests(before, owned)
            &&& plan.persist
            &&& !plan.delete_job
        },
    }
}

fn cleanup_plan(job: &Job, now: i128) -> (plan: JobPlan)
    requires
        valid_time(now),
        job.status.completion_time matches Some(t) ==> valid_time(t),
        job.status.start_time matches Some(t) ==> valid_time(t),
    ensures
        only_cleanup(plan, *job, now as int),
{
    JobPlan {
        terminate: Vec::new(),
        create: Vec::new(),
        persist: false,
        delete_job: JobController::maybe_cleanup_by_ttl(job, now),
    }
}

fn ended_plan(job: &Job, terminate: Vec<String>, now: i128) -> (plan: JobPlan)
    requires
        valid_time(now),
        job.status.completion_time matches Some(t) ==> valid_time(t),
        job.status.start_time matches Some(t) ==> valid_time(t),
    ensures
        store_ended(plan, *job, now as int),
        plan.terminate == terminate,
{
    JobPlan {
        terminate,
        create: Vec::new(),
        persist: true,
        delete_job: JobController::maybe_cleanup_by_ttl(job, now),
    }
}

impl JobController {
    /// Reconciles a job with the pods that exist: sets its start time on the first
    /// reconciliation, counts its pods, ends it when it is complete, failed or over time,
    /// and otherwise asks for pods up to its parallelism.
    pub fn reconcile_job(job: &mut Job, pods: &Vec<PodTask>, now: i128) -> (plan: JobPlan)
        requires
            pods@.len() < i32::MAX,
            valid_time(now),
            old(job).status.start_time matches Some(t) ==> valid_time(t),
            old(job).status.completion_time matches Some(t) ==> valid_time(t),
        ensures
            reconciled(
                *old(job),
                *final(job),
                plan,
                pods@,
                match old(job).status.start_time {
                    Some(t) => t,
                    None => now,
                },
                now,
            ),
    {
        let ghost before = *job;
        let start: i128 = match job.status.start_time {
            Some(t) => t,
            None => now,
        };
        job.status.start_time = Some(start);
        let uid = job.metadata.uid;
        let owned = collect_owned(pods, uid);
        let ghost o = pods_of(pods@, uid);
        let indexed = job.spec.completion_mode == CompletionMode::Indexed;
        let n: usize = if indexed && job.spec.completions > 0 {
            job.spec.completions as usize
        } else {
            0
        };
        if indexed && n == 0 {
            assert(decision(before, o, start as int, now as int) is NothingToRun);
            assert(has(*job, JobConditionType::Complete) == has(before, JobConditionType::Complete));
            if !JobController::has_condition(job, JobConditionType::Complete) {
                JobController::mark_job_complete(job, now);
                return ended_plan(job, Vec::new(), now);
            }
            return cleanup_plan(job, now);
        }
        let t = tally_indices(&owned, n);
        let succeeded: i32;
        let failed: i32;
        let active: i32;
        if indexed {
            let sc = count_trues(&t.succeeded);
            let ac = count_trues(&t.active);
            proof {
                lemma_count_true_bounds(t.succeeded@);
                lemma_count_true_bounds(t.active@);
                assert(index_count(before) == n);
            }
            succeeded = sc as i32;
            failed = t.failed_total;
            active = ac as i32;
        } else {
            let (sc, fc, ac) = count_phases(&owned);
            succeeded = sc as i32;
            failed = fc as i32;
            active = ac as i32;
        }
        let ghost c = counts(before, o);
        assert(succeeded == c.succeeded && failed == c.failed && active == c.active);
        job.status.succeeded = succeeded;
        job.status.failed = failed;
        job.status.active = active;
        let ghost s = counted(before.status, Some(start), c);
        assert(job.status == s);
        assert(has(*job, JobConditionType::Complete) == has(before, JobConditionType::Complete));
        assert(has(*job, JobConditionType::Failed) == has(before, JobConditionType::Failed));
        match job.spec.active_deadline_seconds {
            Some(deadline) => {
                if seconds_between(start, now) >= deadline as i128 {
                    assert(decision(before, o, start as int, now as int) is DeadlineExceeded);
                    let terminate = JobController::terminate_active_pods(pods, uid);
                    let d = to_decimal_signed(deadline);
                    let message = concat3(
                        "Job exceeded the specified active deadline of ",
                        d.as_str(),
                        "s",
                    );
                    JobController::mark_job_failed(job, "DeadlineExceeded", message, now);
                    return ended_plan(job, terminate, now);
                }
            },
            None => {},
        }
        assert(!past_deadline(before, start as int, now as int));
        let done = if indexed {
            succeeded as usize == n
        } else {
            succeeded >= job.spec.completions
        };
        if done {
            assert(decision(before, o, start as int, now as int) is Completed);
            if !JobController::has_condition(job, JobConditionType::Complete) {
                JobController::mark_job_complete(job, now);
                return ended_plan(job, Vec::new(), now);
            }
            return cleanup_plan(job, now);
        }
        assert(!enough(before, c));
        let limit: i32 = job.spec.backoff_limit;
        if indexed {
            let worst = find_above(&t.failed, limit);
            if worst < n {
                assert(decision(before, o, start as int, now as int) == Decision::IndexFailed(
                    worst as int,
                ));
                let terminate = JobController::terminate_active_pods(pods, uid);
                let mut message = concat3(
                    "Indexed completion index ",
                    to_decimal(worst as u64).as_str(),
                    " exceeded backoff limit (",
                );
                let count = to_decimal_signed(t.failed[worst] as i64);
                let bound = to_decimal_signed(limit as i64);
                message = concat3(message.as_str(), count.as_str(), " > ");
                message = concat3(message.as_str(), bound.as_str(), ")");
                proof {
                    let tl = tally(o, n as nat);
                    assert(tl.failed[worst as int] == t.failed@[worst as int]);
                    assert(message@ == index_message(
                        worst as int,
                        tl.failed[worst as int],
                        limit as int,
                    ));
                }
                JobController::mark_job_failed(job, "BackoffLimitExceeded", message, now);
                return ended_plan(job, terminate, now);
            }
        } else if failed > limit {
            assert(decision(before, o, start as int, now as int) is BackoffExceeded);
            let bound = to_decimal_signed(limit as i64);
            let message = concat2(
                "Job has reached the specified backoff limit of ",
                bound.as_str(),
            );
            JobController::mark_job_failed(job, "BackoffLimitExceeded", message, now);
            return ended_plan(job, Vec::new(), now);
        }
        if JobController::has_condition(job, JobConditionType::Complete)
            || JobController::has_condition(job, JobConditionType::Failed) {
            assert(decision(before, o, start as int, now as int) is Ended);
            return cleanup_plan(job, now);
        }
        assert(decision(before, o, start as int, now as int) is Run);
        let k = needed(job, succeeded, active);
        assert(k == to_create(before, c));
        let create = if indexed {
            request_indices(&t, limit, n, k)
        } else {
            request_plain(k)
        };
        assert(create@ == requests(before, o));
        JobPlan { terminate: Vec::new(), create, persist: true, delete_job: false }
    }
}

/// The owner reference of a pod of the job.
pub open spec fn owner_of(job: Job) -> OwnerReferenceView {
    OwnerReferenceView {
        api_version: job.api_version@,
        kind: ResourceKind::Job,
        name: job.metadata.name@,
        uid: job.metadata.uid,
        controller: true,
        block_owner_deletion: Some(true),
    }
}

/// The metadata of a pod of the job. A template in no namespace, or in the default one, goes
/// to the job's namespace.
pub open spec fn pod_meta(job: Job, name: Seq<char>, uid: u128, now: i128) -> ObjectMetaView {
    let t = job.spec.template.metadata.deep_view();
    ObjectMetaView {
        name,
        namespace: if t.namespace.len() == 0 || t.namespace == "default"@ {
            job.metadata.namespace@
        } else {
            t.namespace
        },
        uid,
        creation_timestamp: Some(now),
        owner_references: Some(seq![owner_of(job)]),
        ..t
    }
}

/// A pod of the job with the given spec.
pub open spec fn pod_view(
    job: Job,
    name: Seq<char>,
    uid: u128,
    now: i128,
    spec_view: PodSpecView,
) -> PodTaskView {
    PodTaskView {
        api_version: "v1"@,
        kind: "Pod"@,
        metadata: pod_meta(job, name, uid, now),
        spec: PodSpecView { restart_policy: RestartPolicy::Never, ..spec_view },
        status: pod::new_status(),
    }
}

/// The position of the first index variable, at or after `from`; the length when none is there.
pub open spec fn variable_at(env: Seq<EnvVarView>, from: int) -> int
    decreases env.len() - from,
{
    if from < 0 || from >= env.len() {
        env.len() as int
    } else if env[from].name == index_variable() {
        from
    } else {
        variable_at(env, from + 1)
    }
}

/// The variables with the index variable set.
pub open spec fn with_index_variable(env: Seq<EnvVarView>, value: Seq<char>) -> Seq<EnvVarView> {
    let v = EnvVarView { name: index_variable(), value: Some(value) };
    let at = variable_at(env, 0);
    if at < env.len() {
        env.update(at, v)
    } else {
        env.push(v)
    }
}

/// The container with the index variable set.
pub open spec fn with_index(c: ContainerSpecView, value: Seq<char>) -> ContainerSpecView {
    let env = match c.env {
        Some(e) => e,
        None => Seq::empty(),
    };
    ContainerSpecView { env: Some(with_index_variable(env, value)), ..c }
}

pub open spec fn all_with_index(s: Seq<ContainerSpecView>, value: Seq<char>) -> Seq<ContainerSpecView> {
    s.map_values(|c: ContainerSpecView| with_index(c, value))
}

fn set_index_variable(env: &mut Vec<EnvVar>, value: &String)
    ensures
        final(env).deep_view() == with_index_variable(old(env).deep_view(), value@),
{
    let ghost e0 = env.deep_view();
    let mut i: usize = 0;
    while i < env.len()
        invariant
            i <= env@.len(),
            env.deep_view() == e0,
            e0 == old(env).deep_view(),
            variable_at(e0, 0) == variable_at(e0, i as int),
        decreases env@.len() - i,
    {
        assert(e0[i as int] == env@[i as int].deep_view());
        if str_eq(env[i].name.as_str(), "JOB_COMPLETION_INDEX") {
            env[i].value = Some(value.clone());
            assert(env.deep_view() =~= e0.update(
                i as int,
                EnvVarView { name: index_variable(), value: Some(value@) },
            ));
            return;
        }
        i = i + 1;
    }
    env.push(EnvVar { name: "JOB_COMPLETION_INDEX".to_owned(), value: Some(value.clone()) });
    assert(env.deep_view() =~= e0.push(
        EnvVarView { name: index_variable(), value: Some(value@) },
    ));
}

fn containers_with_index(v: &Vec<ContainerSpec>, value: &String) -> (r: Vec<ContainerSpec>)
    ensures
        r.deep_view() == all_with_index(v.deep_view(), value@),
{
    let mut out: Vec<ContainerSpec> = Vec::new();
    for i in 0..v.len()
        invariant
            out@.len() == i,
            forall|j: int|
                0 <= j < i ==> (#[trigger] out@[j]).deep_view() == with_index(
                    v@[j].deep_view(),
                    value@,
                ),
    {
        let mut c = v[i].copy();
        let mut env: Vec<EnvVar> = match &v[i].env {
            Some(e) => e.copy(),
            None => Vec::new(),
        };
        proof {
            match v@[i as int].env {
                Some(e) => {},
                None => {
                    assert(env.deep_view() =~= Seq::<EnvVarView>::empty());
                },
            }
        }
        set_index_variable(&mut env, value);
        c.env = Some(env);
        out.push(c);
    }
    assert(out.deep_view() =~= all_with_index(v.deep_view(), value@));
    out
}

impl JobController {
    fn job_pod(job: &Job, name: String, uid: u128, now: i128) -> (p: PodTask)
        ensures
            p.deep_view() == pod_view(
                *job,
                name@,
                uid,
                now,
                job.spec.template.spec.deep_view(),
            ),
    {
        let mut metadata = job.spec.template.metadata.copy();
        metadata.name = name;
        if metadata.namespace.as_str().is_empty() || str_eq(metadata.namespace.as_str(), "default") {
            metadata.namespace = job.metadata.namespace.clone();
        }
        metadata.uid = uid;
        metadata.creation_timestamp = Some(now);
        let mut owners: Vec<OwnerReference> = Vec::new();
        owners.push(
            OwnerReference {
                api_version: job.api_version.clone(),
                kind: ResourceKind::Job,
                name: job.metadata.name.clone(),
                uid: job.metadata.uid,
                controller: true,
                block_owner_deletion: Some(true),
            },
        );
        assert(owners.deep_view() =~= seq![owner_of(*job)]);
        metadata.owner_references = Some(owners);
        let mut pod_spec = job.spec.template.spec.copy();
        pod_spec.restart_policy = RestartPolicy::Never;
        PodTask {
            api_version: "v1".to_owned(),
            kind: "Pod".to_owned(),
            metadata,
            spec: pod_spec,
            status: PodStatus::fresh(),
        }
    }

    /// A pod of the job under the given name. It is never restarted: retries are made by
    /// the controller.
    pub fn create_job_pod(job: &Job, name: String, now: i128) -> (p: PodTask)
        ensures
            exists|uid: u128|
                p.deep_view() == #[trigger] pod_view(
                    *job,
                    name@,
                    uid,
                    now,
                    job.spec.template.spec.deep_view(),
                ),
    {
        let uid = new_uid();
        JobController::job_pod(job, name, uid, now)
    }

    /// A pod of an indexed job, for one index, under the given name. All its containers are
    /// told the index.
    pub fn create_job_pod_indexed(job: &Job, name: String, index: usize, now: i128) -> (p: PodTask)
        ensures
            exists|uid: u128|
                p.deep_view() == #[trigger] pod_view(
                    *job,
                    name@,
                    uid,
                    now,
                    indexed_spec(job.spec.template.spec.deep_view(), index as int),
                ),
    {
        let uid = new_uid();
        let mut p = JobController::job_pod(job, name, uid, now);
        let value = to_decimal(index as u64);
        let a = containers_with_index(&p.spec.containers, &value);
        let b = containers_with_index(&p.spec.init_containers, &value);
        p.spec.containers = a;
        p.spec.init_containers = b;
        assert(p.deep_view() == pod_view(
            *job,
            name@,
            uid,
            now,
            indexed_spec(job.spec.template.spec.deep_view(), index as int),
        ));
        p
    }

    /// The name of a pod of an indexed job: the job, the index and the attempt.
    pub fn indexed_pod_name(job_name: &str, index: usize, attempt: i32) -> (r: String)
        ensures
            r@ == indexed_name(job_name@, index as nat, attempt as int),
    {
        let s = concat3(job_name, "-idx", to_decimal(index as u64).as_str());
        concat3(s.as_str(), "-a", to_decimal_signed(attempt as i64).as_str())
    }

    /// The name that a pod of an indexed job gets: that of the attempt, unless a stored pod has
    /// it. Then the next attempt is tried.
    pub fn indexed_name_step(job_name: &str, index: usize, attempt: i32, taken: bool) -> (r: Result<
        String,
        i32,
    >)
        requires
            taken ==> attempt < i32::MAX,
        ensures
            match r {
                Ok(name) => !taken && name@ == indexed_name(
                    job_name@,
                    index as nat,
                    attempt as int,
                ),
                Err(next) => taken && next == attempt + 1,
            },
    {
        if taken {
            Err(attempt + 1)
        } else {
            Ok(JobController::indexed_pod_name(job_name, index, attempt))
        }
    }

    /// The name for a pod of the job that a try gives: the one with the suffix that was drawn,
    /// unless a stored pod has it. Then there is none, and another suffix is drawn.
    pub fn generate_pod_name(job_name: &str, drawn: u32, taken: bool) -> (r: Option<String>)
        ensures
            text::opt_text(r) == random::tried(job_name@, drawn, taken),
    {
        name_step(job_name, drawn, taken)
    }

    /// The job to reconcile after a change of a job: additions and updates count.
    pub fn handle_job_change(change: &Change<Job>) -> (r: Option<String>)
        ensures
            match change {
                Change::Add(j) => r == Some(j.metadata.name),
                Change::Update { old, new } => r == Some(new.metadata.name),
                Change::Delete(_) => r is None,
            },
    {
        match change {
            Change::Add(j) => Some(j.metadata.name.clone()),
            Change::Update { old, new } => Some(new.metadata.name.clone()),
            Change::Delete(_) => None,
        }
    }

    /// Whether a stored job is reconciled: one that is being deleted is left alone.
    pub fn is_reconciled(job: &Job) -> (r: bool)
        ensures
            r == (job.metadata.deletion_timestamp is None),
    {
        job.metadata.deletion_timestamp.is_none()
    }

    /// The kinds of objects that the controller watches.
    pub fn watch_resources() -> (r: Vec<ResourceKind>)
        ensures
            r@ == seq![ResourceKind::Job, ResourceKind::Pod],
    {
        let mut v: Vec<ResourceKind> = Vec::new();
        v.push(ResourceKind::Job);
        v.push(ResourceKind::Pod);
        v
    }
}

/// The name of a pod of an indexed job.
pub open spec fn indexed_name(job_name: Seq<char>, index: nat, attempt: int) -> Seq<char> {
    job_name + "-idx"@ + text::decimal(index) + "-a"@ + text::decimal_int(attempt)
}

/// Each attempt at an index has a name of its own, so that a search which passes over the names
/// that are taken comes to one that is free.
pub proof fn law_attempts_have_names_of_their_own(
    job_name: Seq<char>,
    index: nat,
    a: int,
    b: int,
)
    requires
        indexed_name(job_name, index, a) == indexed_name(job_name, index, b),
    ensures
        a == b,
{
    let p = job_name + "-idx"@ + text::decimal(index) + "-a"@;
    let x = text::decimal_int(a);
    let y = text::decimal_int(b);
    assert((p + x).skip(p.len() as int) =~= x);
    assert((p + y).skip(p.len() as int) =~= y);
    text::lemma_decimal_int_injective(a, b);
}

/// The spec of a pod for one index.
pub open spec fn indexed_spec(s: PodSpecView, index: int) -> PodSpecView {
    let value = text::decimal(index as nat);
    PodSpecView {
        containers: all_with_index(s.containers, value),
        init_containers: all_with_index(s.init_containers, value),
        ..s
    }
}

/// A running job never has more pods than it may run at once, nor more than it still needs:
/// the active pods and the new ones together stay within both bounds, unless the active ones
/// exceed them already.
pub proof fn law_new_pods_stay_within_parallelism(job: Job, owned: Seq<PodTask>)
    ensures
        ({
            let c = counts(job, owned);
            let n = requests(job, owned).len();
            &&& n > 0 ==> c.active + n <= job.spec.parallelism
            &&& n > 0 ==> c.active + n <= job.spec.completions - c.succeeded
        }),
{
    let c = counts(job, owned);
    if job.spec.completion_mode == CompletionMode::Indexed {
        lemma_count_true(tally(owned, index_count(job)).active);
        lemma_index_requests_len(
            tally(owned, index_count(job)),
            job.spec.backoff_limit as int,
            index_count(job) as int,
            to_create(job, c),
        );
    }
}

proof fn lemma_count_true(s: Seq<bool>)
    ensures
        count_true(s) >= 0,
    decreases s.len(),
{
    if s.len() > 0 {
        lemma_count_true(s.drop_last());
    }
}

proof fn lemma_index_requests_len(t: Tally, backoff: int, n: int, limit: int)
    requires
        limit >= 0,
    ensures
        index_requests(t, backoff, n, limit).len() <= limit,
    decreases n,
{
    if n > 0 {
        lemma_index_requests_len(t, backoff, n - 1, limit);
    }
}

/// New pods of an indexed job are for distinct indices, none of which succeeded, is active or
/// failed more often than allowed; the attempt is one more than the failures so far.
pub proof fn law_indexed_requests_are_for_free_indices(t: Tally, backoff: int, n: int, limit: int)
    requires
        0 <= n <= usize::MAX,
        n <= t.succeeded.len(),
        n <= t.failed.len(),
        n <= t.active.len(),
        forall|i: int| 0 <= i < t.failed.len() ==> 0 <= #[trigger] t.failed[i] < i32::MAX,
    ensures
        forall|k: int|
            0 <= k < index_requests(t, backoff, n, limit).len() ==> {
                let r = #[trigger] index_requests(t, backoff, n, limit)[k];
                r matches PodRequest::Indexed { index, attempt } && index < n && free_index(
                    t,
                    backoff,
                    index as int,
                ) && attempt == t.failed[index as int] + 1
            },
        forall|j: int, k: int|
            0 <= j < k < index_requests(t, backoff, n, limit).len() ==> (#[trigger] index_requests(
                t,
                backoff,
                n,
                limit,
            )[j])->index < (#[trigger] index_requests(t, backoff, n, limit)[k])->index,
    decreases n,
{
    if n > 0 {
        law_indexed_requests_are_for_free_indices(t, backoff, n - 1, limit);
        let a = index_requests(t, backoff, n - 1, limit);
        let b = index_requests(t, backoff, n, limit);
        assert forall|k: int| 0 <= k < b.len() implies {
            let r = #[trigger] b[k];
            r matches PodRequest::Indexed { index, attempt } && index < n && free_index(
                t,
                backoff,
                index as int,
            ) && attempt == t.failed[index as int] + 1
        } by {
            if k < a.len() {
                assert(b[k] == a[k]);
            }
        }
        assert forall|j: int, k: int| 0 <= j < k < b.len() implies (#[trigger] b[j])->index < (
        #[trigger] b[k])->index by {
            assert(b[j] == a[j]);
            if k < a.len() {
                assert(b[k] == a[k]);
            }
        }
    }
}

/// A pod that was made for an index is recognised by that index, provided that the template
/// has a container of either kind.
pub proof fn law_indexed_pod_tells_its_index(p: PodTask, s: PodSpecView, index: int)
    requires
        0 <= index <= i32::MAX,
        s.containers.len() > 0 || s.init_containers.len() > 0,
        p.spec.containers.deep_view() == indexed_spec(s, index).containers,
        p.spec.init_containers.deep_view() == indexed_spec(s, index).init_containers,
    ensures
        completion_index(p) == Some(index),
{
    let value = text::decimal(index as nat);
    if s.containers.len() > 0 {
        lemma_index_is_told(p.spec.containers, s.containers, value);
    } else {
        assert(p.spec.containers.deep_view().len() == p.spec.containers@.len());
        assert(index_in(p.spec.containers@, 0) is None);
        lemma_index_is_told(p.spec.init_containers, s.init_containers, value);
    }
    text::law_decimal_is_read_back(index as nat);
}

/// Containers that are told an index tell it.
proof fn lemma_index_is_told(v: Vec<ContainerSpec>, s: Seq<ContainerSpecView>, value: Seq<char>)
    requires
        s.len() > 0,
        v.deep_view() == all_with_index(s, value),
    ensures
        index_in(v@, 0) == Some(value),
{
    let cs = v@;
    let first = cs[0];
    assert(v.deep_view().len() == cs.len());
    assert(v.deep_view()[0] == first.deep_view());
    let e0 = match s[0].env {
        Some(e) => e,
        None => Seq::empty(),
    };
    let ev = with_index_variable(e0, value);
    assert(first.deep_view().env == Some(ev));
    let env = first.env->0;
    assert(first.env is Some);
    assert(env.deep_view() == ev);
    assert(env.deep_view().len() == env@.len());
    lemma_variable_at(e0, 0);
    let at = if variable_at(e0, 0) < e0.len() {
        variable_at(e0, 0)
    } else {
        e0.len() as int
    };
    assert forall|j: int| 0 <= j < at implies (#[trigger] env@[j]).name@ != index_variable() by {
        assert(env.deep_view()[j] == env@[j].deep_view());
        assert(ev[j] == e0[j]);
    }
    assert(env.deep_view()[at] == env@[at].deep_view());
    assert(ev[at].name == index_variable() && ev[at].value == Some(value));
    lemma_index_in_env(env@, 0, at);
    assert(index_in_env(env@, 0) == Some(env@[at].value->0@));
    assert(env@[at].value.deep_view() == Some(value));
}

proof fn lemma_variable_at(env: Seq<EnvVarView>, from: int)
    requires
        0 <= from <= env.len(),
    ensures
        from <= variable_at(env, from) <= env.len(),
        forall|j: int| from <= j < variable_at(env, from) ==> (#[trigger] env[j]).name != index_variable(),
        variable_at(env, from) < env.len() ==> env[variable_at(env, from)].name == index_variable(),
    decreases env.len() - from,
{
    if from < env.len() && env[from].name != index_variable() {
        lemma_variable_at(env, from + 1);
    }
}

proof fn lemma_index_in_env(env: Seq<EnvVar>, from: int, at: int)
    requires
        0 <= from <= at < env.len(),
        forall|j: int| from <= j < at ==> (#[trigger] env[j]).name@ != index_variable(),
        env[at].name@ == index_variable(),
        env[at].value is Some,
    ensures
        index_in_env(env, from) == Some(env[at].value->0@),
    decreases at - from,
{
    if from < at {
        assert(env[from].name@ != index_variable());
        lemma_index_in_env(env, from + 1, at);
    }
}

/// The number of pods of which something holds.
pub open spec fn how_many(pods: Seq<PodTask>, f: spec_fn(PodTask) -> bool) -> nat
    decreases pods.len(),
{
    if pods.len() == 0 {
        0
    } else if f(pods.last()) {
        how_many(pods.drop_last(), f) + 1
    } else {
        how_many(pods.drop_last(), f)
    }
}

/// Whether one of the owners of a pod is the job with the identifier.
pub open spec fn job_owns(p: PodTask, uid: u128) -> bool {
    match p.metadata.owner_references {
        Some(v) => exists|i: int|
            0 <= i < v@.len() && (#[trigger] v@[i]).kind == ResourceKind::Job && v@[i].uid == uid,
        None => false,
    }
}

/// The pods of a job that are in a phase.
pub open spec fn pods_in_phase(uid: u128, phase: PodPhase) -> spec_fn(PodTask) -> bool {
    |p: PodTask| job_owns(p, uid) && p.status.phase == phase
}

/// The pods of a job that wait or run.
pub open spec fn pods_at_work(uid: u128) -> spec_fn(PodTask) -> bool {
    |p: PodTask|
        job_owns(p, uid) && (p.status.phase == PodPhase::Running || p.status.phase
            == PodPhase::Pending)
}

/// The failed pods of a job for one index.
pub open spec fn failures_at(uid: u128, index: int) -> spec_fn(PodTask) -> bool {
    |p: PodTask|
        job_owns(p, uid) && completion_index(p) == Some(index) && p.status.phase == PodPhase::Failed
}

/// Whether a pod of the job succeeded for the index.
pub open spec fn index_is_done(pods: Seq<PodTask>, uid: u128, index: int) -> bool {
    exists|k: int|
        0 <= k < pods.len() && job_owns(#[trigger] pods[k], uid) && completion_index(pods[k]) == Some(
            index,
        ) && pods[k].status.phase == PodPhase::Succeeded
}

/// Whether a pod of the job waits or runs for the index.
pub open spec fn index_is_taken(pods: Seq<PodTask>, uid: u128, index: int) -> bool {
    exists|k: int|
        0 <= k < pods.len() && job_owns(#[trigger] pods[k], uid) && completion_index(pods[k]) == Some(
            index,
        ) && (pods[k].status.phase == PodPhase::Running || pods[k].status.phase
            == PodPhase::Pending)
}

/// The number of indices below `n` for which a pod succeeded.
pub open spec fn indices_done(pods: Seq<PodTask>, uid: u128, n: nat) -> nat
    decreases n,
{
    if n == 0 {
        0
    } else if index_is_done(pods, uid, n - 1) {
        indices_done(pods, uid, (n - 1) as nat) + 1
    } else {
        indices_done(pods, uid, (n - 1) as nat)
    }
}

/// The number of indices below `n` for which a pod waits or runs.
pub open spec fn indices_taken(pods: Seq<PodTask>, uid: u128, n: nat) -> nat
    decreases n,
{
    if n == 0 {
        0
    } else if index_is_taken(pods, uid, n - 1) {
        indices_taken(pods, uid, (n - 1) as nat) + 1
    } else {
        indices_taken(pods, uid, (n - 1) as nat)
    }
}

/// Whether the status of a job carries the condition.
pub open spec fn carries_condition(s: JobStatus, kind: JobConditionType) -> bool {
    exists|i: int|
        0 <= i < s.conditions@.len() && (#[trigger] s.conditions@[i]).condition_type == kind
            && s.conditions@[i].status == ConditionStatus::True
}

/// Whether the only change of the conditions is one more at the end, and the job ended now.
pub open spec fn ends_with(
    before: JobStatus,
    after: JobStatus,
    kind: JobConditionType,
    now: i128,
) -> bool {
    &&& after.conditions@.len() == before.conditions@.len() + 1
    &&& after.conditions@.take(before.conditions@.len() as int) == before.conditions@
    &&& after.conditions@.last().condition_type == kind
    &&& after.conditions@.last().status == ConditionStatus::True
    &&& after.conditions@.last().last_transition_time == Some(now)
    &&& after.completion_time == Some(now)
}

/// When a job was started that is worked on now.
pub open spec fn started_at(s: JobStatus, now: i128) -> i128 {
    match s.start_time {
        Some(t) => t,
        None => now,
    }
}

/// Whether the time for which a job may run is over, to the nanosecond.
pub open spec fn out_of_time(job: Job, now: i128) -> bool {
    match job.spec.active_deadline_seconds {
        Some(d) => now - started_at(job.status, now) >= d * 1_000_000_000,
        None => false,
    }
}

/// Whether an ended job outlived the time for which it is kept, to the nanosecond.
pub open spec fn outlived(job: Job, now: i128) -> bool {
    match (job.spec.ttl_seconds_after_finished, job.status.completion_time, job.status.start_time) {
        (Some(d), Some(t), _) => now - t >= d * 1_000_000_000,
        (Some(d), None, Some(t)) => now - t >= d * 1_000_000_000,
        _ => false,
    }
}

/// Whether the text is among the names.
pub open spec fn is_among(names: Seq<String>, t: Seq<char>) -> bool {
    exists|i: int| 0 <= i < names.len() && (#[trigger] names[i])@ == t
}

/// Whether a pod of the job that waits or runs has the name.
pub open spec fn works_under(pods: Seq<PodTask>, uid: u128, t: Seq<char>) -> bool {
    exists|k: int|
        0 <= k < pods.len() && pods_at_work(uid)(#[trigger] pods[k]) && pods[k].metadata.name@ == t
}

/// Whether the names are those of the pods of the job that wait or run, and of no others.
pub open spec fn names_those_at_work(
    names: Seq<String>,
    pods: Seq<PodTask>,
    uid: u128,
) -> bool {
    forall|t: Seq<char>| #[trigger] is_among(names, t) <==> works_under(pods, uid, t)
}

proof fn lemma_how_many(
    pods: Seq<PodTask>,
    uid: u128,
    q: spec_fn(PodTask) -> bool,
    f: spec_fn(PodTask) -> bool,
)
    requires
        forall|p: PodTask| #[trigger] f(p) == (job_owns(p, uid) && q(p)),
    ensures
        pods_of(pods, uid).filter(q).len() == how_many(pods, f),
        how_many(pods, f) > 0 <==> exists|k: int| 0 <= k < pods.len() && f(#[trigger] pods[k]),
    decreases pods.len(),
{
    reveal(Seq::filter);
    if pods.len() > 0 {
        let init = pods.drop_last();
        lemma_how_many(init, uid, q, f);
        assert(of_job(uid)(pods.last()) == job_owns(pods.last(), uid));
        if of_job(uid)(pods.last()) {
            lemma_filter_push(pods_of(init, uid), pods.last(), q);
        }
        if how_many(init, f) > 0 {
            let k = choose|k: int| 0 <= k < init.len() && f(#[trigger] init[k]);
            assert(f(pods[k]));
        }
        if exists|k: int| 0 <= k < pods.len() && f(#[trigger] pods[k]) {
            let k = choose|k: int| 0 <= k < pods.len() && f(#[trigger] pods[k]);
            if k < init.len() {
                assert(f(init[k]));
            }
        }
        if f(pods.last()) {
            assert(f(pods[pods.len() - 1]));
        }
    }
}

proof fn lemma_terminated_names(names: Seq<String>, pods: Seq<PodTask>, uid: u128)
    requires
        text::texts(names) == names_of(pods_of(pods, uid).filter(is_active())),
    ensures
        names_those_at_work(names, pods, uid),
{
    let owned = pods_of(pods, uid);
    let f = owned.filter(is_active());
    seqs::lemma_filter_members(pods, of_job(uid));
    seqs::lemma_filter_members(owned, is_active());
    assert(text::texts(names).len() == names.len());
    assert(names.len() == f.len());
    assert forall|t: Seq<char>| #[trigger] is_among(names, t) <==> works_under(pods, uid, t) by {
        if works_under(pods, uid, t) {
            let k = choose|k: int|
                0 <= k < pods.len() && pods_at_work(uid)(#[trigger] pods[k])
                    && pods[k].metadata.name@ == t;
            assert(pods.contains(pods[k]));
            assert(of_job(uid)(pods[k]) && is_active()(pods[k]));
            assert(f.contains(pods[k]));
            let i = choose|i: int| 0 <= i < f.len() && f[i] == pods[k];
            assert(text::texts(names)[i] == names[i]@);
            assert(names_of(f)[i] == pods[k].metadata.name@);
        }
        if is_among(names, t) {
            let i = choose|i: int| 0 <= i < names.len() && (#[trigger] names[i])@ == t;
            assert(text::texts(names)[i] == names[i]@);
            assert(names_of(f)[i] == f[i].metadata.name@);
            assert(f.contains(f[i]));
            assert(pods.contains(f[i]));
            let k = choose|k: int| 0 <= k < pods.len() && pods[k] == f[i];
            assert(of_job(uid)(pods[k]) && is_active()(pods[k]));
            assert(pods_at_work(uid)(pods[k]));
        }
    }
}

/// A job that is not indexed ends as complete when, and only when, at least as many of its pods
/// succeeded as it asks for, and as failed when its time is over or when more of its pods failed
/// than it puts up with. Until then it goes on, and asks for as many pods as may run at once, but
/// for no more than still have to succeed, less those that wait or run. Its counters are those of
/// its own pods; pods are deleted only when its time is over, and then all that wait or run.
pub proof fn law_plain_job_runs_until_enough_pods_succeeded(
    job: &mut Job,
    pods: Vec<PodTask>,
    now: i128,
    plan: JobPlan,
)
    requires
        call_ensures(JobController::reconcile_job, (job, &pods, now), plan),
        pods@.len() < i32::MAX,
        old(job).spec.completion_mode != CompletionMode::Indexed,
        started_at(old(job).status, now) <= now,
    ensures
        ({
            let b = *old(job);
            let a = *final(job);
            let uid = b.metadata.uid;
            let succeeded = how_many(pods@, pods_in_phase(uid, PodPhase::Succeeded));
            let failed = how_many(pods@, pods_in_phase(uid, PodPhase::Failed));
            let active = how_many(pods@, pods_at_work(uid));
            let late = out_of_time(b, now);
            let enough = succeeded >= b.spec.completions;
            let broken = failed > b.spec.backoff_limit;
            let was_complete = carries_condition(b.status, JobConditionType::Complete);
            let was_failed = carries_condition(b.status, JobConditionType::Failed);
            let goes_on = !late && !enough && !broken && !was_complete && !was_failed;
            &&& a == (Job { status: a.status, ..b })
            &&& a.status.start_time == Some(started_at(b.status, now))
            &&& a.status.succeeded == succeeded
            &&& a.status.failed == failed
            &&& a.status.active == active
            &&& ends_with(b.status, a.status, JobConditionType::Complete, now) <==> !late && enough
                && !was_complete
            &&& ends_with(b.status, a.status, JobConditionType::Failed, now) <==> late || !enough
                && broken
            &&& !late && (enough && was_complete || !enough && !broken) ==> a.status.conditions@
                == b.status.conditions@ && a.status.completion_time == b.status.completion_time
            &&& goes_on ==> {
                let room = if b.spec.parallelism < b.spec.completions - succeeded {
                    b.spec.parallelism as int
                } else {
                    b.spec.completions - succeeded
                };
                &&& plan.create@.len() == if room > active {
                    room - active
                } else {
                    0
                }
                &&& forall|i: int|
                    0 <= i < plan.create@.len() ==> #[trigger] plan.create@[i] == PodRequest::Plain
                &&& plan.persist
                &&& !plan.delete_job
            }
            &&& !goes_on ==> plan.create@.len() == 0
            &&& late ==> names_those_at_work(plan.terminate@, pods@, uid)
            &&& !late ==> plan.terminate@.len() == 0
            &&& late || !enough && broken || enough && !was_complete ==> plan.persist
        }),
{
    let b = *old(job);
    let a = *final(job);
    let uid = b.metadata.uid;
    let owned = pods_of(pods@, uid);
    lemma_how_many(
        pods@,
        uid,
        in_phase(PodPhase::Succeeded),
        pods_in_phase(uid, PodPhase::Succeeded),
    );
    lemma_how_many(pods@, uid, in_phase(PodPhase::Failed), pods_in_phase(uid, PodPhase::Failed));
    lemma_how_many(pods@, uid, is_active(), pods_at_work(uid));
    lemma_pod_counts(pods@, uid);
    let start = started_at(b.status, now);
    assert(reconciled(b, a, plan, pods@, start, now));
    assert(past_deadline(b, start as int, now as int) == out_of_time(b, now));
    assert(has(b, JobConditionType::Complete) == carries_condition(
        b.status,
        JobConditionType::Complete,
    ));
    assert(has(b, JobConditionType::Failed) == carries_condition(b.status, JobConditionType::Failed));
    let c = counts(b, owned);
    let s = counted(b.status, Some(start), c);
    lemma_ended(b.status, s, a.status, now);
    if out_of_time(b, now) {
        lemma_terminated_names(plan.terminate@, pods@, uid);
    }
}

proof fn lemma_pod_counts(pods: Seq<PodTask>, uid: u128)
    ensures
        pods_of(pods, uid).len() <= pods.len(),
        pods_of(pods, uid).filter(in_phase(PodPhase::Succeeded)).len() <= pods.len(),
        pods_of(pods, uid).filter(in_phase(PodPhase::Failed)).len() <= pods.len(),
        pods_of(pods, uid).filter(is_active()).len() <= pods.len(),
{
    pods.lemma_filter_len(of_job(uid));
    pods_of(pods, uid).lemma_filter_len(in_phase(PodPhase::Succeeded));
    pods_of(pods, uid).lemma_filter_len(in_phase(PodPhase::Failed));
    pods_of(pods, uid).lemma_filter_len(is_active());
}

/// A status that ended with a condition ends with no other, and one with the same conditions with
/// none.
proof fn lemma_ended(b: JobStatus, s: JobStatus, a: JobStatus, now: i128)
    requires
        s.conditions == b.conditions,
    ensures
        forall|kind: JobConditionType, reason: Seq<char>, message: Seq<char>| #[trigger]
            ended(s, a, kind, now, reason, message) ==> ends_with(b, a, kind, now),
        !(ends_with(b, a, JobConditionType::Complete, now) && ends_with(
            b,
            a,
            JobConditionType::Failed,
            now,
        )),
{
    assert forall|kind: JobConditionType, reason: Seq<char>, message: Seq<char>| #[trigger] ended(
        s,
        a,
        kind,
        now,
        reason,
        message,
    ) implies ends_with(b, a, kind, now) by {
        assert(a.conditions@.take(b.conditions@.len() as int) =~= a.conditions@.drop_last());
    }
}

proof fn lemma_count_true_is_indices(s: Seq<bool>, pods: Seq<PodTask>, uid: u128, done: bool)
    requires
        forall|i: int|
            0 <= i < s.len() ==> #[trigger] s[i] == if done {
                index_is_done(pods, uid, i)
            } else {
                index_is_taken(pods, uid, i)
            },
    ensures
        done ==> count_true(s) == indices_done(pods, uid, s.len()),
        !done ==> count_true(s) == indices_taken(pods, uid, s.len()),
        count_true(s) == s.len() <==> forall|i: int| 0 <= i < s.len() ==> #[trigger] s[i],
        0 <= count_true(s) <= s.len(),
    decreases s.len(),
{
    if s.len() > 0 {
        let init = s.drop_last();
        assert forall|i: int| 0 <= i < init.len() implies #[trigger] init[i] == if done {
            index_is_done(pods, uid, i)
        } else {
            index_is_taken(pods, uid, i)
        } by {
            assert(init[i] == s[i]);
        }
        lemma_count_true_is_indices(init, pods, uid, done);
        assert(s[s.len() - 1] == s.last());
        if count_true(s) == s.len() {
            assert forall|i: int| 0 <= i < s.len() implies #[trigger] s[i] by {
                if i < init.len() {
                    assert(init[i]);
                }
            }
        }
        if forall|i: int| 0 <= i < s.len() ==> #[trigger] s[i] {
            assert forall|i: int| 0 <= i < init.len() implies #[trigger] init[i] by {
                assert(s[i]);
            }
        }
    }
}

/// What the tally of a job says of each index, in terms of the pods.
proof fn lemma_tally(pods: Seq<PodTask>, uid: u128, n: nat)
    ensures
        ({
            let t = tally(pods_of(pods, uid), n);
            &&& t.succeeded.len() == n && t.failed.len() == n && t.active.len() == n
            &&& forall|i: int|
                0 <= i < n ==> #[trigger] t.succeeded[i] == index_is_done(pods, uid, i)
            &&& forall|i: int| 0 <= i < n ==> #[trigger] t.active[i] == index_is_taken(pods, uid, i)
            &&& forall|i: int|
                0 <= i < n ==> #[trigger] t.failed[i] == how_many(pods, failures_at(uid, i))
            &&& forall|i: int| 0 <= i < n ==> 0 <= #[trigger] t.failed[i] <= pods.len()
            &&& count_true(t.succeeded) == indices_done(pods, uid, n)
            &&& count_true(t.active) == indices_taken(pods, uid, n)
            &&& indices_done(pods, uid, n) == n <==> forall|i: int|
                0 <= i < n ==> #[trigger] index_is_done(pods, uid, i)
            &&& indices_done(pods, uid, n) <= n
            &&& indices_taken(pods, uid, n) <= n
        }),
{
    let owned = pods_of(pods, uid);
    let t = tally(owned, n);
    assert forall|i: int| 0 <= i < n implies #[trigger] t.succeeded[i] == index_is_done(pods, uid, i) by {
        let f = |p: PodTask|
            job_owns(p, uid) && completion_index(p) == Some(i) && p.status.phase
                == PodPhase::Succeeded;
        lemma_how_many(pods, uid, succeeded_with(i), f);
        if index_is_done(pods, uid, i) {
            let k = choose|k: int|
                0 <= k < pods.len() && job_owns(#[trigger] pods[k], uid) && completion_index(pods[k])
                    == Some(i) && pods[k].status.phase == PodPhase::Succeeded;
            assert(f(pods[k]));
        }
        if how_many(pods, f) > 0 {
            let k = choose|k: int| 0 <= k < pods.len() && f(#[trigger] pods[k]);
            assert(job_owns(pods[k], uid));
        }
    }
    assert forall|i: int| 0 <= i < n implies #[trigger] t.active[i] == index_is_taken(pods, uid, i) by {
        let f = |p: PodTask|
            job_owns(p, uid) && completion_index(p) == Some(i) && (p.status.phase
                == PodPhase::Running || p.status.phase == PodPhase::Pending);
        lemma_how_many(pods, uid, active_with(i), f);
        if index_is_taken(pods, uid, i) {
            let k = choose|k: int|
                0 <= k < pods.len() && job_owns(#[trigger] pods[k], uid) && completion_index(pods[k])
                    == Some(i) && (pods[k].status.phase == PodPhase::Running
                    || pods[k].status.phase == PodPhase::Pending);
            assert(f(pods[k]));
        }
        if how_many(pods, f) > 0 {
            let k = choose|k: int| 0 <= k < pods.len() && f(#[trigger] pods[k]);
            assert(job_owns(pods[k], uid));
        }
    }
    assert forall|i: int| 0 <= i < n implies #[trigger] t.failed[i] == how_many(
        pods,
        failures_at(uid, i),
    ) && 0 <= t.failed[i] <= pods.len() by {
        lemma_how_many(pods, uid, failed_with(i), failures_at(uid, i));
        owned.lemma_filter_len(failed_with(i));
        pods.lemma_filter_len(of_job(uid));
    }
    lemma_count_true_is_indices(t.succeeded, pods, uid, true);
    lemma_count_true_is_indices(t.active, pods, uid, false);
    if forall|i: int| 0 <= i < n ==> #[trigger] index_is_done(pods, uid, i) {
        assert forall|i: int| 0 <= i < n implies #[trigger] t.succeeded[i] by {
            assert(index_is_done(pods, uid, i));
        }
    }
    if count_true(t.succeeded) == n {
        assert forall|i: int| 0 <= i < n implies #[trigger] index_is_done(pods, uid, i) by {
            assert(t.succeeded[i]);
        }
    }
}

proof fn lemma_first_above(s: Seq<int>, limit: int, from: int)
    requires
        0 <= from <= s.len(),
    ensures
        from <= first_above(s, limit, from) <= s.len(),
        first_above(s, limit, from) < s.len() ==> s[first_above(s, limit, from)] > limit,
        forall|i: int| from <= i < first_above(s, limit, from) ==> #[trigger] s[i] <= limit,
    decreases s.len() - from,
{
    if from < s.len() && s[from] <= limit {
        lemma_first_above(s, limit, from + 1);
    }
}

/// Whether an index of a job is open: no pod of it succeeded, waits or runs, and no more of them
/// failed than the job puts up with.
pub open spec fn index_is_open(pods: Seq<PodTask>, job: Job, index: int) -> bool {
    &&& !index_is_done(pods, job.metadata.uid, index)
    &&& !index_is_taken(pods, job.metadata.uid, index)
    &&& how_many(pods, failures_at(job.metadata.uid, index)) <= job.spec.backoff_limit
}

/// Whether a pod for the index is asked for.
pub open spec fn asks_for(r: Seq<PodRequest>, i: int) -> bool {
    exists|k: int| 0 <= k < r.len() && (#[trigger] r[k]) is Indexed && r[k]->index == i
}

/// Either as many requests are made as may be, or one for each free index.
proof fn lemma_requests_are_complete(t: Tally, backoff: int, n: int, limit: int)
    requires
        limit >= 0,
        0 <= n <= usize::MAX,
    ensures
        ({
            let r = index_requests(t, backoff, n, limit);
            r.len() == limit || forall|i: int|
                0 <= i < n && #[trigger] free_index(t, backoff, i) ==> asks_for(r, i)
        }),
        index_requests(t, backoff, n, limit).len() <= limit,
    decreases n,
{
    if n > 0 {
        lemma_requests_are_complete(t, backoff, n - 1, limit);
        let a = index_requests(t, backoff, n - 1, limit);
        let r = index_requests(t, backoff, n, limit);
        if r.len() != limit {
            assert forall|i: int| 0 <= i < n && #[trigger] free_index(t, backoff, i) implies asks_for(r, i) by {
                if i < n - 1 {
                    let k = choose|k: int|
                        0 <= k < a.len() && (#[trigger] a[k]) is Indexed && a[k]->index == i;
                    assert(r[k] == a[k]);
                } else {
                    let k = r.len() - 1;
                    assert(r[k] is Indexed && r[k]->index == i);
                }
            }
        }
    }
}

/// An indexed job ends as complete when, and only when, a pod succeeded for each of its indices,
/// and as failed when its time is over or when more pods failed for one index than it puts up
/// with. Until then it asks for pods for open indices, one for each and each as the next attempt:
/// as many as may run at once, but no more than there are indices left, less those that are being
/// worked on.
pub proof fn law_indexed_job_runs_until_each_index_succeeded(
    job: &mut Job,
    pods: Vec<PodTask>,
    now: i128,
    plan: JobPlan,
)
    requires
        call_ensures(JobController::reconcile_job, (job, &pods, now), plan),
        pods@.len() < i32::MAX,
        old(job).spec.completion_mode == CompletionMode::Indexed,
        old(job).spec.completions > 0,
        started_at(old(job).status, now) <= now,
    ensures
        ({
            let b = *old(job);
            let a = *final(job);
            let uid = b.metadata.uid;
            let n = b.spec.completions as nat;
            let late = out_of_time(b, now);
            let enough = forall|i: int| 0 <= i < n ==> #[trigger] index_is_done(pods@, uid, i);
            let broken = exists|i: int|
                0 <= i < n && how_many(pods@, #[trigger] failures_at(uid, i))
                    > b.spec.backoff_limit;
            let was_complete = carries_condition(b.status, JobConditionType::Complete);
            let was_failed = carries_condition(b.status, JobConditionType::Failed);
            let goes_on = !late && !enough && !broken && !was_complete && !was_failed;
            let left = n - indices_done(pods@, uid, n);
            let taken = indices_taken(pods@, uid, n);
            let room = if b.spec.parallelism < left {
                b.spec.parallelism as int
            } else {
                left
            };
            &&& a == (Job { status: a.status, ..b })
            &&& a.status.start_time == Some(started_at(b.status, now))
            &&& a.status.succeeded == indices_done(pods@, uid, n)
            &&& a.status.active == taken
            &&& ends_with(b.status, a.status, JobConditionType::Complete, now) <==> !late && enough
                && !was_complete
            &&& ends_with(b.status, a.status, JobConditionType::Failed, now) <==> late || !enough
                && broken
            &&& !late && (enough && was_complete || !enough && !broken) ==> a.status.conditions@
                == b.status.conditions@ && a.status.completion_time == b.status.completion_time
            &&& goes_on ==> plan.persist && !plan.delete_job
            &&& goes_on ==> forall|k: int|
                0 <= k < plan.create@.len() ==> ((#[trigger] plan.create@[k]) matches PodRequest::Indexed {
                    index,
                    attempt,
                } && index < n && index_is_open(pods@, b, index as int) && attempt == how_many(
                    pods@,
                    failures_at(uid, index as int),
                ) + 1)
            &&& goes_on ==> forall|j: int, k: int|
                0 <= j < k < plan.create@.len() ==> (#[trigger] plan.create@[j])->index < (
                #[trigger] plan.create@[k])->index
            &&& goes_on ==> plan.create@.len() <= if room > taken {
                room - taken
            } else {
                0
            }
            &&& goes_on && plan.create@.len() + taken < room ==> forall|i: int|
                0 <= i < n && #[trigger] index_is_open(pods@, b, i) ==> asks_for(plan.create@, i)
            &&& !goes_on ==> plan.create@.len() == 0
            &&& late || !enough && broken ==> names_those_at_work(plan.terminate@, pods@, uid)
            &&& !late && (enough || !broken) ==> plan.terminate@.len() == 0
        }),
{
    let b = *old(job);
    let a = *final(job);
    let uid = b.metadata.uid;
    let n = b.spec.completions as nat;
    let owned = pods_of(pods@, uid);
    let t = tally(owned, n);
    assert(index_count(b) == n);
    lemma_tally(pods@, uid, n);
    let limit = b.spec.backoff_limit as int;
    lemma_first_above(t.failed, limit, 0);
    let worst = first_above(t.failed, limit, 0);
    let start = started_at(b.status, now);
    assert(reconciled(b, a, plan, pods@, start, now));
    assert(past_deadline(b, start as int, now as int) == out_of_time(b, now));
    assert(has(b, JobConditionType::Complete) == carries_condition(
        b.status,
        JobConditionType::Complete,
    ));
    assert(has(b, JobConditionType::Failed) == carries_condition(b.status, JobConditionType::Failed));
    let c = counts(b, owned);
    let s = counted(b.status, Some(start), c);
    lemma_ended(b.status, s, a.status, now);
    let broken = exists|i: int|
        0 <= i < n && how_many(pods@, #[trigger] failures_at(uid, i)) > b.spec.backoff_limit;
    assert(broken == (worst < n)) by {
        if worst < n {
            assert(t.failed[worst] == how_many(pods@, failures_at(uid, worst)));
        }
        if broken {
            let i = choose|i: int|
                0 <= i < n && how_many(pods@, #[trigger] failures_at(uid, i))
                    > b.spec.backoff_limit;
            assert(t.failed[i] > limit);
        }
    }
    if out_of_time(b, now) || (c.succeeded != n && broken) {
        lemma_terminated_names(plan.terminate@, pods@, uid);
    }
    let k = to_create(b, c);
    lemma_requests_are_complete(t, limit, n as int, k);
    law_indexed_requests_are_for_free_indices(t, limit, n as int, k);
    assert forall|i: int| 0 <= i < n implies #[trigger] free_index(t, limit, i) == index_is_open(
        pods@,
        b,
        i,
    ) by {
        assert(t.failed[i] == how_many(pods@, failures_at(uid, i)));
    }
    if decision(b, owned, start as int, now as int) is Run {
        assert(plan.create@ == index_requests(t, limit, n as int, k));
        assert forall|i: int| 0 <= i < plan.create@.len() implies ((
        #[trigger] plan.create@[i]) matches PodRequest::Indexed { index, attempt } && index < n
            && index_is_open(pods@, b, index as int) && attempt == how_many(
            pods@,
            failures_at(uid, index as int),
        ) + 1) by {
            let x = plan.create@[i]->index as int;
            assert(free_index(t, limit, x));
            assert(t.failed[x] == how_many(pods@, failures_at(uid, x)));
        }
        if plan.create@.len() != k {
            assert forall|i: int| 0 <= i < n && #[trigger] index_is_open(pods@, b, i) implies asks_for(
            plan.create@, i) by {
                assert(free_index(t, limit, i));
            }
        }
    }
}

/// An indexed job without indices is complete at once, and asks for no pods.
pub proof fn law_job_without_indices_is_complete(
    job: &mut Job,
    pods: Vec<PodTask>,
    now: i128,
    plan: JobPlan,
)
    requires
        call_ensures(JobController::reconcile_job, (job, &pods, now), plan),
        old(job).spec.completion_mode == CompletionMode::Indexed,
        old(job).spec.completions <= 0,
    ensures
        ({
            let was_complete = carries_condition(old(job).status, JobConditionType::Complete);
            &&& *final(job) == (Job { status: final(job).status, ..*old(job) })
            &&& ends_with(
                old(job).status,
                final(job).status,
                JobConditionType::Complete,
                now,
            ) <==> !was_complete
            &&& was_complete ==> final(job).status.conditions@ == old(job).status.conditions@
            &&& plan.create@.len() == 0
            &&& plan.terminate@.len() == 0
        }),
{
    let b = *old(job);
    let a = *final(job);
    let start = started_at(b.status, now);
    assert(reconciled(b, a, plan, pods@, start, now));
    assert(has(b, JobConditionType::Complete) == carries_condition(
        b.status,
        JobConditionType::Complete,
    ));
    let begun = JobStatus { start_time: Some(start), ..b.status };
    lemma_ended(b.status, begun, a.status, now);
}

/// A job is deleted only once it ended and the time for which it is kept is over, and then it is.
pub proof fn law_ended_jobs_are_kept_for_their_time(job: Job, now: i128, r: bool)
    requires
        call_ensures(JobController::maybe_cleanup_by_ttl, (&job, now), r),
        job.status.completion_time matches Some(t) ==> t <= now,
        job.status.start_time matches Some(t) ==> t <= now,
    ensures
        r == outlived(job, now),
{
}

/// Deleting a job goes by the status that the reconciliation leaves: a job that goes on is kept,
/// and one that ended is deleted when the time for which it is kept is over.
pub proof fn law_reconciliation_deletes_outlived_jobs(
    job: &mut Job,
    pods: Vec<PodTask>,
    now: i128,
    plan: JobPlan,
)
    requires
        call_ensures(JobController::reconcile_job, (job, &pods, now), plan),
        old(job).status.completion_time matches Some(t) ==> t <= now,
        old(job).status.start_time matches Some(t) ==> t <= now,
    ensures
        plan.delete_job ==> outlived(*final(job), now),
        plan.delete_job ==> carries_condition(final(job).status, JobConditionType::Complete)
            || carries_condition(final(job).status, JobConditionType::Failed),
        !plan.persist && outlived(*final(job), now) ==> plan.delete_job,
        !plan.persist ==> final(job).status.conditions@ == old(job).status.conditions@,
{
    let b = *old(job);
    let a = *final(job);
    let start = started_at(b.status, now);
    let c = counts(b, pods_of(pods@, b.metadata.uid));
    let s = counted(b.status, Some(start), c);
    let begun = JobStatus { start_time: Some(start), ..b.status };
    assert(reconciled(b, a, plan, pods@, start, now));
    lemma_ended(b.status, s, a.status, now);
    lemma_ended(b.status, begun, a.status, now);
    assert forall|kind: JobConditionType| #[trigger] ends_with(b.status, a.status, kind, now) implies carries_condition(
    a.status, kind) by {
        let v = a.status.conditions@;
        assert(v[v.len() - 1].condition_type == kind);
    }
    assert(forall|kind: JobConditionType| #[trigger] has(b, kind) == carries_condition(b.status, kind));
    assert(a.status.conditions@ == b.status.conditions@ ==> forall|kind: JobConditionType| #[trigger]
        carries_condition(a.status, kind) == carries_condition(b.status, kind));
}

/// Whether a pod was made for the job: it is of the job alone, as its controller, and waits
/// without an address under the given name, in the job's namespace unless its template lies in one
/// of its own.
pub open spec fn is_made_for(p: PodTask, job: Job, name: Seq<char>, now: i128) -> bool {
    &&& p.metadata.name@ == name
    &&& p.metadata.creation_timestamp == Some(now)
    &&& p.metadata.namespace@ == if job.spec.template.metadata.namespace@.len() == 0
        || job.spec.template.metadata.namespace@ == "default"@ {
        job.metadata.namespace@
    } else {
        job.spec.template.metadata.namespace@
    }
    &&& p.metadata.labels@ == job.spec.template.metadata.labels@
    &&& p.metadata.annotations@ == job.spec.template.metadata.annotations@
    &&& p.metadata.owner_references matches Some(v) && v@.len() == 1 && v@[0].kind
        == ResourceKind::Job && v@[0].uid == job.metadata.uid && v@[0].name@ == job.metadata.name@
        && v@[0].controller && v@[0].block_owner_deletion == Some(true)
    &&& p.spec.restart_policy == RestartPolicy::Never
    &&& p.spec.node_name.deep_view() == job.spec.template.spec.node_name.deep_view()
    &&& pod::same_volumes(p.spec.volumes@, job.spec.template.spec.volumes@)
    &&& p.spec.rest@ == job.spec.template.spec.rest@
    &&& p.status.phase == PodPhase::Pending
    &&& p.status.pod_ip is None
}

proof fn lemma_made_for(p: PodTask, job: Job, name: Seq<char>, uid: u128, now: i128, s: PodSpecView)
    requires
        p.deep_view() == pod_view(job, name, uid, now, s),
        s.node_name == job.spec.template.spec.node_name.deep_view(),
        s.volumes == job.spec.template.spec.volumes.deep_view(),
        s.rest == job.spec.template.spec.rest@,
    ensures
        is_made_for(p, job, name, now),
        p.spec.containers.deep_view() == s.containers,
        p.spec.init_containers.deep_view() == s.init_containers,
{
    let v = pod_view(job, name, uid, now, s);
    assert(p.spec.deep_view() == v.spec);
    assert(p.metadata.deep_view() == v.metadata);
    assert(p.status.deep_view() == v.status);
    assert(p.status.pod_ip.deep_view() is None);
    pod::lemma_same_volumes(p.spec.volumes, job.spec.template.spec.volumes);
    let o = p.metadata.owner_references->0;
    assert(p.metadata.owner_references.deep_view() == Some(o.deep_view()));
    assert(o.deep_view().len() == 1);
    assert(o.deep_view()[0] == o@[0].deep_view());
}

/// A pod of a job runs the containers of the job's template, and is never restarted.
pub proof fn law_job_pod_runs_the_template(job: Job, name: String, now: i128, p: PodTask)
    requires
        call_ensures(JobController::create_job_pod, (&job, name, now), p),
    ensures
        is_made_for(p, job, name@, now),
        pod::same_containers(p.spec.containers@, job.spec.template.spec.containers@),
        pod::same_containers(p.spec.init_containers@, job.spec.template.spec.init_containers@),
{
    let s = job.spec.template.spec;
    let uid = choose|uid: u128|
        p.deep_view() == #[trigger] pod_view(job, name@, uid, now, s.deep_view());
    lemma_made_for(p, job, name@, uid, now, s.deep_view());
    pod::lemma_same_containers(p.spec.containers, s.containers);
    pod::lemma_same_containers(p.spec.init_containers, s.init_containers);
}

/// A pod for an index runs the containers of the job's template with the same names and images,
/// and is recognised by that index where the template has a container of either kind.
pub proof fn law_indexed_pod_runs_the_template_for_its_index(
    job: Job,
    name: String,
    index: usize,
    now: i128,
    p: PodTask,
    seen: Option<usize>,
)
    requires
        call_ensures(JobController::create_job_pod_indexed, (&job, name, index, now), p),
        call_ensures(JobController::pod_completion_index, (&p,), seen),
        index <= i32::MAX,
    ensures
        is_made_for(p, job, name@, now),
        p.spec.containers@.len() == job.spec.template.spec.containers@.len(),
        forall|i: int|
            0 <= i < p.spec.containers@.len() ==> (#[trigger] p.spec.containers@[i]).name@
                == job.spec.template.spec.containers@[i].name@ && p.spec.containers@[i].image@
                == job.spec.template.spec.containers@[i].image@
                && p.spec.containers@[i].args.deep_view()
                == job.spec.template.spec.containers@[i].args.deep_view(),
        job.spec.template.spec.containers@.len() > 0
            || job.spec.template.spec.init_containers@.len() > 0 ==> seen == Some(index),
{
    let t = job.spec.template.spec;
    let s = indexed_spec(t.deep_view(), index as int);
    let uid = choose|uid: u128| p.deep_view() == #[trigger] pod_view(job, name@, uid, now, s);
    lemma_made_for(p, job, name@, uid, now, s);
    assert(p.spec.containers.deep_view().len() == p.spec.containers@.len());
    assert(t.containers.deep_view().len() == t.containers@.len());
    assert(t.init_containers.deep_view().len() == t.init_containers@.len());
    assert forall|i: int| 0 <= i < p.spec.containers@.len() implies (
    #[trigger] p.spec.containers@[i]).name@ == t.containers@[i].name@ && p.spec.containers@[i].image@
        == t.containers@[i].image@ && p.spec.containers@[i].args.deep_view()
        == t.containers@[i].args.deep_view() by {
        assert(p.spec.containers.deep_view()[i] == p.spec.containers@[i].deep_view());
        assert(t.containers.deep_view()[i] == t.containers@[i].deep_view());
    }
    if t.containers@.len() > 0 || t.init_containers@.len() > 0 {
        law_indexed_pod_tells_its_index(p, t.deep_view(), index as int);
    }
}

/// The index of a pod is the number in the first variable `JOB_COMPLETION_INDEX` with a value of
/// its only container.
pub proof fn law_index_is_told_by_its_variable(p: PodTask, seen: Option<usize>, index: nat)
    requires
        call_ensures(JobController::pod_completion_index, (&p,), seen),
        p.spec.containers@.len() == 1,
        p.spec.init_containers@.len() == 0,
        p.spec.containers@[0].env matches Some(v) && v@.len() == 1 && v@[0].name@
            == "JOB_COMPLETION_INDEX"@ && (v@[0].value matches Some(t) && t@ == text::decimal(index)),
        index <= i32::MAX,
    ensures
        seen == Some(index as usize),
{
    let env = p.spec.containers@[0].env->0@;
    lemma_index_in_env(env, 0, 0);
    assert(index_in(p.spec.containers@, 0) == Some(text::decimal(index)));
    text::law_decimal_is_read_back(index);
}

/// A pod belongs to a job exactly when the job is among its owners, by its kind and identifier.
pub proof fn law_pods_belong_to_their_job(p: PodTask, job: Job, r: bool)
    requires
        call_ensures(JobController::is_owned_by_job, (&p, &job), r),
    ensures
        r == job_owns(p, job.metadata.uid),
{
}

/// A job that is marked has ended now, with one more condition, of the kind that it is marked
/// with; nothing else of it changes. It has that condition from then on.
pub proof fn law_marked_job_has_ended(
    job: &mut Job,
    other: &mut Job,
    reason: &str,
    message: String,
    now: i128,
    complete: Job,
    failed: Job,
    a: bool,
    b: bool,
)
    requires
        call_ensures(JobController::mark_job_complete, (job, now), ()),
        call_ensures(JobController::mark_job_failed, (other, reason, message, now), ()),
        call_ensures(JobController::has_condition, (&complete, JobConditionType::Complete), a),
        call_ensures(JobController::has_condition, (&failed, JobConditionType::Failed), b),
    ensures
        final(job).status.completion_time == Some(now),
        final(job).status.succeeded == old(job).status.succeeded,
        final(job).spec == old(job).spec && final(job).metadata == old(job).metadata,
        final(job).status.conditions@.len() == old(job).status.conditions@.len() + 1,
        complete == *final(job) ==> a,
        final(other).status.completion_time == Some(now),
        final(other).spec == old(other).spec && final(other).metadata == old(other).metadata,
        failed == *final(other) ==> b,
{
    let c = final(job).status.conditions@;
    assert(c.last() == c[c.len() - 1]);
    let d = final(other).status.conditions@;
    assert(d.last() == d[d.len() - 1]);
}

/// The pods that are ended are those of the job that still run or wait to.
pub proof fn law_active_pods_of_the_job_are_ended(
    pods: Vec<PodTask>,
    uid: u128,
    r: Vec<String>,
    name: Seq<char>,
)
    requires
        call_ensures(JobController::terminate_active_pods, (&pods, uid), r),
    ensures
        text::texts(r@).contains(name) <==> exists|i: int|
            0 <= i < pods@.len() && (#[trigger] pods@[i]).metadata.name@ == name && of_job(uid)(
                pods@[i],
            ) && (pods@[i].status.phase == PodPhase::Running || pods@[i].status.phase
                == PodPhase::Pending),
{
    let own = pods_of(pods@, uid);
    let active = own.filter(is_active());
    let names = names_of(active);
    seqs::lemma_filter_members(pods@, of_job(uid));
    seqs::lemma_filter_members(own, is_active());
    if names.contains(name) {
        let k = choose|k: int| 0 <= k < names.len() && names[k] == name;
        let p = active[k];
        assert(active.contains(p));
        assert(is_active()(p));
        assert(own.contains(p));
        assert(pods@.contains(p));
        let i = choose|i: int| 0 <= i < pods@.len() && pods@[i] == p;
        assert(pods@[i].metadata.name@ == name);
    }
    if exists|i: int|
        0 <= i < pods@.len() && (#[trigger] pods@[i]).metadata.name@ == name && of_job(uid)(pods@[i])
            && (pods@[i].status.phase == PodPhase::Running || pods@[i].status.phase
            == PodPhase::Pending) {
        let i = choose|i: int|
            0 <= i < pods@.len() && (#[trigger] pods@[i]).metadata.name@ == name && of_job(uid)(
                pods@[i],
            ) && (pods@[i].status.phase == PodPhase::Running || pods@[i].status.phase
                == PodPhase::Pending);
        let p = pods@[i];
        assert(pods@.contains(p));
        assert(own.contains(p));
        assert(is_active()(p));
        assert(active.contains(p));
        let k = choose|k: int| 0 <= k < active.len() && active[k] == p;
        assert(names[k] == name);
    }
}

/// A name that is taken leads to the next attempt, and one that is free is used.
pub proof fn law_taken_name_leads_to_the_next_attempt(
    job_name: &str,
    index: usize,
    attempt: i32,
    taken: bool,
    r: Result<String, i32>,
    name: String,
)
    requires
        call_ensures(JobController::indexed_name_step, (job_name, index, attempt, taken), r),
        call_ensures(JobController::indexed_pod_name, (job_name, index, attempt), name),
    ensures
        taken ==> r == Err::<String, i32>((attempt + 1) as i32),
        !taken ==> (r matches Ok(n) && n@ == name@),
        name@ == job_name@ + "-idx"@ + text::decimal(index as nat) + "-a"@ + text::decimal_int(
            attempt as int,
        ),
{
}

/// A change of a job calls for it, unless it is deleted; a job that is being deleted is left alone.
pub proof fn law_changed_job_is_reconciled(
    j: Job,
    was: Job,
    a: Option<String>,
    b: Option<String>,
    c: Option<String>,
    on: bool,
)
    requires
        call_ensures(JobController::handle_job_change, (&Change::Add(j),), a),
        call_ensures(JobController::handle_job_change, (&Change::Update { old: was, new: j },), b),
        call_ensures(JobController::handle_job_change, (&Change::Delete(j),), c),
        call_ensures(JobController::is_reconciled, (&j,), on),
    ensures
        a == Some(j.metadata.name) && b == Some(j.metadata.name) && c is None,
        on <==> j.metadata.deletion_timestamp is None,
{
}

} // verus!

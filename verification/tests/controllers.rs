use rks::controllers::deployment::{hash_text_of, DeploymentController, DeploymentStep, NewReplicaSet};
use rks::controllers::endpoint_controller::{
    build_endpoints_from_service_and_pods, service_selects, wait_after, EndpointAction,
    EndpointController, WorkQueue,
};
use rks::controllers::job::{JobController, PodRequest};
use rks::controllers::manager::{
    key_prefix, next_backoff, object_key, parse_watch_event, retry_with_backoff, strip_watch_key,
    watch_event, Change, ControllerManager, EventType, WatchLoop, WatchOutcome,
    WatchEvent,
};
use rks::controllers::nftrules_controller::{
    empty_endpoint_for_service, merge_incremental_payloads, retry_delay, services_with,
    services_without, MergeError, NftPlan, NftQueue, NftablesController,
};
use rks::controllers::rollout::Rollout;
use rks::controllers::replicaset::{retry_after_conflict, ReplicaSetController};
use rks::controllers::selector::{is_empty_selector, labels_match};
use rks::clock::{nanos_from, time_since, whole_secs_of};
use rks::node::dispatch::UserStep;
use rks::node::write_flow::{
    begin_write, history_failed, rollback_reply, write_step, WriteAction, WriteEvent, WriteFlow,
};
use rks::protocol::dict::TextSet;
use rks::protocol::message::RksMessage;
use rks::protocol::labels::LabelMap;
use rks::protocol::meta::{ObjectMeta, OwnerReference, ResourceKind};
use rks::protocol::pod::{ContainerSpec, PodPhase, PodSpec, PodStatus, PodTask, PodTemplateSpec, RestartPolicy};
use rks::protocol::value::Value;
use rks::protocol::service::{ServicePort, ServiceSpec, ServiceTask};
use rks::protocol::workload::{
    CompletionMode, Deployment, DeploymentCondition, DeploymentSpec, DeploymentStatus,
    DeploymentStrategy, IntOrPercentage, Job, JobConditionType, JobSpec, JobStatus, LabelSelector,
    LabelSelectorOperator, LabelSelectorRequirement, ReplicaSet, ReplicaSetSpec, ReplicaSetStatus,
    RollingUpdate, RollingUpdateStrategy,
};
use rks::random::draw_name;

fn labels(pairs: &[(&str, &str)]) -> LabelMap {
    let mut m = LabelMap::new();
    for (k, v) in pairs {
        m.insert(k.to_string(), v.to_string());
    }
    m
}

fn selector(pairs: &[(&str, &str)]) -> LabelSelector {
    LabelSelector { match_labels: labels(pairs), match_expressions: vec![] }
}

fn pod_spec() -> PodSpec {
    PodSpec {
        node_name: None,
        containers: vec![],
        init_containers: vec![],
        restart_policy: RestartPolicy::Always,
        volumes: vec![],
        rest: String::new(),
    }
}

fn pod(name: &str, uid: u128, pairs: &[(&str, &str)], ip: Option<&str>) -> PodTask {
    let mut metadata = ObjectMeta::bare(name.to_string(), "default".to_string(), uid);
    metadata.labels = labels(pairs);
    let mut status = PodStatus::fresh();
    status.pod_ip = ip.map(|s| s.to_string());
    PodTask {
        api_version: "v1".to_string(),
        kind: "Pod".to_string(),
        metadata,
        spec: pod_spec(),
        status,
    }
}

fn template(pairs: &[(&str, &str)]) -> PodTemplateSpec {
    let mut metadata = ObjectMeta::bare("".to_string(), "default".to_string(), 0);
    metadata.labels = labels(pairs);
    PodTemplateSpec { metadata, spec: pod_spec() }
}

fn replicaset(name: &str, uid: u128, replicas: i32) -> ReplicaSet {
    ReplicaSet {
        api_version: "v1".to_string(),
        kind: "ReplicaSet".to_string(),
        metadata: ObjectMeta::bare(name.to_string(), "default".to_string(), uid),
        spec: ReplicaSetSpec {
            replicas,
            selector: selector(&[("app", "web")]),
            template: template(&[("app", "web")]),
        },
        status: ReplicaSetStatus {
            replicas: 0,
            fully_labeled_replicas: 0,
            ready_replicas: 0,
            available_replicas: 0,
        },
    }
}

fn owner(kind: ResourceKind, name: &str, uid: u128) -> OwnerReference {
    OwnerReference {
        api_version: "v1".to_string(),
        kind,
        name: name.to_string(),
        uid,
        controller: true,
        block_owner_deletion: Some(true),
    }
}

fn deployment(replicas: i32) -> Deployment {
    Deployment {
        api_version: "v1".to_string(),
        kind: "Deployment".to_string(),
        metadata: ObjectMeta::bare("web".to_string(), "default".to_string(), 50),
        spec: DeploymentSpec {
            replicas,
            selector: selector(&[("app", "web")]),
            template: template(&[("app", "web")]),
            strategy: DeploymentStrategy::RollingUpdate {
                rolling_update: RollingUpdate {
                    max_surge: IntOrPercentage::Int(1),
                    max_unavailable: IntOrPercentage::Int(1),
                },
            },
            progress_deadline_seconds: 600,
            revision_history_limit: 1,
            rest: String::new(),
        },
        status: DeploymentStatus {
            replicas: 0,
            updated_replicas: 0,
            ready_replicas: 0,
            available_replicas: 0,
            unavailable_replicas: 0,
            observed_generation: None,
            collision_count: 0,
            conditions: vec![],
        },
    }
}

#[test]
fn selectors_match_labels_and_expressions() {
    let l = labels(&[("app", "web"), ("tier", "front")]);
    assert!(labels_match(&selector(&[("app", "web")]), &l));
    assert!(!labels_match(&selector(&[("app", "db")]), &l));
    let with = |operator: LabelSelectorOperator, key: &str, values: &[&str]| LabelSelector {
        match_labels: LabelMap::new(),
        match_expressions: vec![LabelSelectorRequirement {
            key: key.to_string(),
            operator,
            values: values.iter().map(|s| s.to_string()).collect(),
        }],
    };
    assert!(labels_match(&with(LabelSelectorOperator::In, "app", &["db", "web"]), &l));
    assert!(!labels_match(&with(LabelSelectorOperator::NotIn, "app", &["web"]), &l));
    assert!(labels_match(&with(LabelSelectorOperator::NotIn, "none", &["web"]), &l));
    assert!(labels_match(&with(LabelSelectorOperator::Exists, "tier", &[]), &l));
    assert!(!labels_match(&with(LabelSelectorOperator::DoesNotExist, "tier", &[]), &l));
    assert!(is_empty_selector(&selector(&[])));
}

#[test]
fn replicasets_reach_their_size() {
    let rs = replicaset("web", 9, 2);
    let plan = ReplicaSetController::reconcile(&rs, &vec![]);
    assert_eq!((plan.create, plan.delete.len()), (2, 0));

    let pods = vec![
        pod("a", 1, &[("app", "web")], Some("10.0.0.1")),
        pod("b", 2, &[("app", "web")], None),
        pod("c", 3, &[("app", "web")], Some("10.0.0.3")),
        pod("d", 4, &[("app", "db")], None),
    ];
    let plan = ReplicaSetController::reconcile(&rs, &pods);
    assert_eq!(plan.create, 0);
    // The pod without an address goes first.
    assert_eq!(plan.delete, vec![1]);
    assert_eq!(plan.adopt, vec![0, 1, 2]);
    assert_eq!(plan.status.replicas, 3);

    let mut adopted = pod("a", 1, &[("app", "web")], None);
    ReplicaSetController::adopt_pod(&rs, &mut adopted);
    assert_eq!(adopted.metadata.owner_references.as_ref().unwrap()[0].uid, 9);
    assert!(ReplicaSetController::owns_or_can_adopt_pod(&rs, &adopted));
    let mut other = pod("a", 1, &[("app", "web")], None);
    other.metadata.owner_references = Some(vec![owner(ResourceKind::ReplicaSet, "x", 77)]);
    assert!(!ReplicaSetController::owns_or_can_adopt_pod(&rs, &other));
}

#[test]
fn new_pods_belong_to_their_replicaset() {
    let rs = replicaset("web", 9, 2);
    let (drawn, tried) = draw_name("web");
    assert!(tried.starts_with("web-"));
    assert_eq!(ReplicaSetController::generate_unique_name("web", drawn, true), None);
    let name = ReplicaSetController::generate_unique_name("web", drawn, false).unwrap();
    assert_eq!(name, tried);
    let p = ReplicaSetController::new_pod(&rs, name);
    assert_eq!(p.metadata.name, tried);
    assert!(ReplicaSetController::selector_match(&rs, &p));
    assert_eq!(p.metadata.owner_references.as_ref().unwrap()[0].uid, 9);
    assert_ne!(draw_name("web"), draw_name("web"));
    assert_eq!(
        ReplicaSetController::generate_unique_name("web", 0xab, false).as_deref(),
        Some("web-000000ab")
    );
    assert!(ReplicaSetController::should_reconcile(&Change::Add(replicaset("web", 9, 2))));
    assert!(!ReplicaSetController::should_reconcile(&Change::Update {
        old: replicaset("web", 9, 2),
        new: replicaset("web", 9, 2)
    }));
    let called = ReplicaSetController::handle_pod_change(
        &Change::Add(pod("a", 1, &[("app", "web")], None)),
        &vec![replicaset("web", 9, 2), replicaset("web2", 10, 2)],
    );
    assert_eq!(called, vec!["web", "web2"]);
    assert!(retry_after_conflict(1));
    assert!(!retry_after_conflict(100));
}

fn job(completions: i32, parallelism: i32, mode: CompletionMode) -> Job {
    Job {
        api_version: "v1".to_string(),
        kind: "Job".to_string(),
        metadata: ObjectMeta::bare("batch".to_string(), "default".to_string(), 70),
        spec: JobSpec {
            template: template(&[("job", "batch")]),
            completions,
            parallelism,
            backoff_limit: 1,
            completion_mode: mode,
            active_deadline_seconds: None,
            ttl_seconds_after_finished: Some(10),
            rest: String::new(),
        },
        status: JobStatus {
            active: 0,
            succeeded: 0,
            failed: 0,
            start_time: None,
            completion_time: None,
            conditions: vec![],
        },
    }
}

fn job_pod(name: &str, phase: PodPhase) -> PodTask {
    let mut p = pod(name, 1, &[], None);
    p.metadata.owner_references = Some(vec![owner(ResourceKind::Job, "batch", 70)]);
    p.status.phase = phase;
    p
}

const SECOND: i128 = 1_000_000_000;

#[test]
fn jobs_run_within_their_parallelism() {
    let mut j = job(3, 2, CompletionMode::NonIndexed);
    let plan = JobController::reconcile_job(&mut j, &vec![], SECOND);
    assert_eq!(plan.create.len(), 2);
    assert_eq!(j.status.start_time, Some(SECOND));

    let mut j = job(3, 2, CompletionMode::NonIndexed);
    let pods = vec![job_pod("a", PodPhase::Succeeded), job_pod("b", PodPhase::Running)];
    let plan = JobController::reconcile_job(&mut j, &pods, SECOND);
    assert_eq!(plan.create.len(), 1);
    assert_eq!((j.status.succeeded, j.status.active), (1, 1));
}

#[test]
fn jobs_complete_and_fail() {
    let mut j = job(1, 1, CompletionMode::NonIndexed);
    JobController::reconcile_job(&mut j, &vec![job_pod("a", PodPhase::Succeeded)], SECOND);
    assert!(JobController::has_condition(&j, JobConditionType::Complete));
    assert_eq!(j.status.completion_time, Some(SECOND));
    assert!(!JobController::maybe_cleanup_by_ttl(&j, 5 * SECOND));
    assert!(JobController::maybe_cleanup_by_ttl(&j, 12 * SECOND));

    let mut j = job(1, 1, CompletionMode::NonIndexed);
    let failed = vec![job_pod("a", PodPhase::Failed), job_pod("b", PodPhase::Failed)];
    JobController::reconcile_job(&mut j, &failed, SECOND);
    assert!(JobController::has_condition(&j, JobConditionType::Failed));

    let mut late = job(1, 1, CompletionMode::NonIndexed);
    late.spec.active_deadline_seconds = Some(5);
    late.status.start_time = Some(0);
    let plan = JobController::reconcile_job(&mut late, &vec![job_pod("a", PodPhase::Running)], 10 * SECOND);
    assert!(JobController::has_condition(&late, JobConditionType::Failed));
    assert_eq!(plan.terminate, vec!["a"]);
}

#[test]
fn indexed_jobs_run_each_index() {
    let mut j = job(2, 2, CompletionMode::Indexed);
    j.spec.template.spec.containers = vec![ContainerSpec {
        name: "c".to_string(),
        image: "i".to_string(),
        ports: vec![],
        args: vec![],
        resources: None,
        env: None,
        rest: String::new(),
    }];
    let plan = JobController::reconcile_job(&mut j, &vec![], SECOND);
    let indices: Vec<usize> = plan
        .create
        .iter()
        .map(|r| match r {
            PodRequest::Indexed { index, .. } => *index,
            PodRequest::Plain => panic!("plain pod"),
        })
        .collect();
    assert_eq!(indices, vec![0, 1]);
    let name = JobController::indexed_pod_name("batch", 1, 2);
    assert_eq!(name, "batch-idx1-a2");
    assert_eq!(JobController::indexed_name_step("batch", 1, 2, true), Err(3));
    assert_eq!(JobController::indexed_name_step("batch", 1, 2, false), Ok(name.clone()));
    let p = JobController::create_job_pod_indexed(&j, name, 1, SECOND);
    assert_eq!(JobController::pod_completion_index(&p), Some(1));
    assert!(JobController::is_owned_by_job(&p, &j));
    assert_eq!(JobController::owning_job_name(&p).as_deref(), Some("batch"));
    // The index is told where there are initial containers alone.
    let containers = std::mem::take(&mut j.spec.template.spec.containers);
    j.spec.template.spec.init_containers = containers;
    let p = JobController::create_job_pod_indexed(&j, "batch-idx1-a0".to_string(), 1, SECOND);
    assert_eq!(JobController::pod_completion_index(&p), Some(1));
}

/// The reply that a request ends with.
fn reply_of(r: (WriteFlow, WriteAction)) -> RksMessage {
    match r {
        (WriteFlow::Ended, WriteAction::Reply(m)) => m,
        other => panic!("{other:?}"),
    }
}

fn error_of(m: RksMessage) -> String {
    match m {
        RksMessage::Error(e) => e,
        other => panic!("{other:?}"),
    }
}

#[test]
fn written_objects_are_acknowledged() {
    let (st, action) = begin_write(UserStep::CreatePod(pod("p", 1, &[], None))).unwrap();
    assert!(matches!(action, WriteAction::Read(ResourceKind::Pod, n) if n == "p"));
    let (st, action) = write_step(st, WriteEvent::Pod(None), SECOND);
    match action {
        WriteAction::PutPod(name, p) => {
            assert_eq!(name, "p");
            assert_eq!(p.metadata.creation_timestamp, Some(SECOND));
        }
        other => panic!("{other:?}"),
    }
    assert!(matches!(reply_of(write_step(st, WriteEvent::Written, SECOND)), RksMessage::Ack));

    let (st, action) = begin_write(UserStep::CreateReplicaSet(replicaset("r", 1, 2))).unwrap();
    assert!(matches!(action, WriteAction::Read(ResourceKind::ReplicaSet, n) if n == "r"));
    let (st, action) = write_step(st, WriteEvent::ReplicaSet(None), SECOND);
    assert!(matches!(action, WriteAction::PutReplicaSet(n, _) if n == "r"));
    assert!(matches!(reply_of(write_step(st, WriteEvent::Written, SECOND)), RksMessage::Ack));

    let d = deployment(2);
    let name = d.metadata.name.clone();
    let (st, _) = begin_write(UserStep::CreateDeployment(d)).unwrap();
    let (st, action) = write_step(st, WriteEvent::Deployment(None), SECOND);
    assert!(matches!(action, WriteAction::PutDeployment(n, _) if n == name));
    assert!(matches!(reply_of(write_step(st, WriteEvent::Written, SECOND)), RksMessage::Ack));

    for step in [
        UserStep::DeletePod("x".to_string()),
        UserStep::DeleteObject(ResourceKind::ReplicaSet, "x".to_string()),
        UserStep::DeleteObject(ResourceKind::Deployment, "x".to_string()),
    ] {
        let (st, action) = begin_write(step).unwrap();
        assert!(matches!(action, WriteAction::Delete(_, n) if n == "x"));
        assert!(matches!(reply_of(write_step(st, WriteEvent::Written, SECOND)), RksMessage::Ack));
    }
    let other = UserStep::List(ResourceKind::Pod);
    assert!(matches!(begin_write(other), Err(UserStep::List(ResourceKind::Pod))));
}

#[test]
fn updates_keep_what_is_stored() {
    let mut stored = replicaset("r", 1, 2);
    stored.metadata.generation = Some(4);
    let (st, _) = begin_write(UserStep::UpdateReplicaSet(replicaset("r", 9, 3))).unwrap();
    match write_step(st, WriteEvent::ReplicaSet(Some(stored)), SECOND) {
        (WriteFlow::Writing, WriteAction::PutReplicaSet(name, rs)) => {
            assert_eq!(name, "r");
            assert_eq!((rs.metadata.uid, rs.metadata.generation), (1, Some(5)));
            assert_eq!(rs.spec.replicas, 3);
        }
        other => panic!("{other:?}"),
    }
    // The last generation is no hindrance where nothing changes.
    let mut stored = deployment(2);
    stored.metadata.generation = Some(i64::MAX);
    let (st, _) = begin_write(UserStep::UpdateDeployment(deployment(2))).unwrap();
    match write_step(st, WriteEvent::Deployment(Some(stored)), SECOND) {
        (st, WriteAction::PutDeployment(_, d)) => {
            assert_eq!(d.metadata.generation, Some(i64::MAX));
            let reply = reply_of(write_step(st, WriteEvent::Written, SECOND));
            assert!(matches!(reply, RksMessage::Ack));
        }
        other => panic!("{other:?}"),
    }
    let mut status = PodStatus::fresh();
    status.phase = PodPhase::Running;
    let step = |status| UserStep::UpdatePodStatus {
        pod_name: "p".to_string(),
        pod_namespace: "default".to_string(),
        status,
    };
    let (st, _) = begin_write(step(status)).unwrap();
    match write_step(st, WriteEvent::Pod(Some(pod("p", 1, &[], Some("10.0.0.1")))), SECOND) {
        (st, WriteAction::PutPod(name, p)) => {
            assert_eq!(name, "p");
            assert_eq!(p.status.pod_ip.as_deref(), Some("10.0.0.1"));
            assert!(matches!(p.status.phase, PodPhase::Running));
            let reply = reply_of(write_step(st, WriteEvent::Written, SECOND));
            assert!(matches!(reply, RksMessage::Ack));
        }
        other => panic!("{other:?}"),
    }
    let (st, _) = begin_write(step(PodStatus::fresh())).unwrap();
    let reply = reply_of(write_step(st, WriteEvent::Pod(None), SECOND));
    assert_eq!(error_of(reply), "PodTask default/p not found");
}

#[test]
fn refused_changes_are_not_acknowledged() {
    let (st, _) = begin_write(UserStep::CreatePod(pod("p", 1, &[], None))).unwrap();
    let stored = WriteEvent::Pod(Some(pod("p", 2, &[], None)));
    assert_eq!(error_of(reply_of(write_step(st, stored, SECOND))), "Pod p already exists");
    let (st, _) = begin_write(UserStep::CreateReplicaSet(replicaset("r", 1, 2))).unwrap();
    let stored = WriteEvent::ReplicaSet(Some(replicaset("r", 2, 2)));
    assert_eq!(error_of(reply_of(write_step(st, stored, SECOND))), "rs \"r\" already exists");
    let d = deployment(1);
    let expected = format!("deployment \"{}\" already exists", d.metadata.name);
    let (st, _) = begin_write(UserStep::CreateDeployment(d)).unwrap();
    let stored = WriteEvent::Deployment(Some(deployment(1)));
    assert_eq!(error_of(reply_of(write_step(st, stored, SECOND))), expected);
    // Of what cannot be serialized, only a new pod gets a reply.
    let (st, _) = begin_write(UserStep::CreatePod(pod("p", 1, &[], None))).unwrap();
    let (st, _) = write_step(st, WriteEvent::Pod(None), SECOND);
    let reply = reply_of(write_step(st, WriteEvent::NotSerialized("deep".to_string()), SECOND));
    assert_eq!(error_of(reply), "Serialization error: deep");
    let (st, _) = begin_write(UserStep::CreateReplicaSet(replicaset("r", 1, 2))).unwrap();
    let (st, _) = write_step(st, WriteEvent::ReplicaSet(None), SECOND);
    match write_step(st, WriteEvent::NotSerialized("deep".to_string()), SECOND) {
        (WriteFlow::Ended, WriteAction::Fail(e)) => assert_eq!(e, "deep"),
        other => panic!("{other:?}"),
    }
    // A failure of the store gets no reply.
    let (st, _) = begin_write(UserStep::DeletePod("p".to_string())).unwrap();
    match write_step(st, WriteEvent::Failed("gone".to_string()), SECOND) {
        (WriteFlow::Ended, WriteAction::Fail(e)) => assert_eq!(e, "gone"),
        other => panic!("{other:?}"),
    }
    assert!(matches!(rollback_reply(Ok(())), RksMessage::Ack));
    let failed = rollback_reply(Err("no revision".to_string()));
    assert_eq!(error_of(failed), "Rollback failed: no revision");
    assert_eq!(error_of(history_failed("none")), "Failed to get history: none");
}

#[test]
fn times_are_told_apart() {
    assert_eq!(time_since("1970-01-01T00:00:10+00:00", 12, 5), Some(2_000_000_005));
    assert_eq!(time_since("1970-01-01T01:00:10+01:00", 8, 999_999_999), Some(-1_000_000_001));
    assert_eq!(time_since("yesterday", 12, 5), None);
    // A leap second counts once the next second has begun.
    assert_eq!(time_since("2016-12-31T23:59:60Z", 1_483_228_799, 0), Some(-1_000_000_000));
    assert_eq!(nanos_from((59, 1_500_000_000), (61, 0)), 1_500_000_000);
    assert_eq!(nanos_from((61, 0), (59, 1_500_000_000)), -1_500_000_000);
    assert_eq!(nanos_from((-1, 0), (0, 0)), 1_000_000_000);
    assert_eq!(whole_secs_of(1_999_999_999), 1);
    assert_eq!(whole_secs_of(-1_999_999_999), -1);
    // The arithmetic agrees with that of the calendar crate.
    let instants = [
        (0, 0), (59, 0), (59, 1_999_999_999), (60, 1), (86_399, 1_000_000_000), (86_400, 0),
        (-1, 1_200_000_000), (-86_401, 999_999_999), (1_700_000_000, 7),
    ];
    for a in instants {
        for b in instants {
            let at = |i: (i64, u32)| chrono::DateTime::from_timestamp(i.0, i.1).unwrap();
            let between = at(b).signed_duration_since(at(a));
            assert_eq!(nanos_from(a, b), between.num_nanoseconds().unwrap() as i128);
            assert_eq!(whole_secs_of(nanos_from(a, b)), between.num_seconds() as i128);
        }
    }
}

#[test]
fn other_fields_of_templates_are_kept() {
    let tolerations = "{\"tolerations\":[{\"key\":\"NodeNotReady\"}]}";
    let mut changed = replicaset("r", 1, 1);
    changed.spec.template.spec.rest = tolerations.to_string();
    assert!(!changed.spec.same(&replicaset("r", 1, 1).spec));
    let p = ReplicaSetController::new_pod(&changed, "r-1".to_string());
    assert_eq!(p.spec.rest, tolerations);
    let mut d = deployment(1);
    assert!(DeploymentController::replicaset_matches_deployment(&current_of(&d), &d));
    let current = current_of(&d);
    d.spec.template.spec.rest = tolerations.to_string();
    assert!(!DeploymentController::replicaset_matches_deployment(&current, &d));
    let mut j = job(1, 1, CompletionMode::NonIndexed);
    j.spec.template.spec.rest = tolerations.to_string();
    let p = JobController::create_job_pod(&j, "batch-1".to_string(), SECOND);
    assert_eq!(p.spec.rest, tolerations);
}

/// A replica set with the template of a deployment.
fn current_of(d: &Deployment) -> ReplicaSet {
    let mut rs = replicaset("web", 1, 1);
    rs.spec.template = d.spec.template.copy();
    rs
}

#[test]
fn bounds_of_updates_are_resolved() {
    let bounds = |surge, unavailable| RollingUpdate { max_surge: surge, max_unavailable: unavailable };
    let half = || IntOrPercentage::Percentage("50%".to_string());
    let s = bounds(IntOrPercentage::Int(3), half()).resolve(7, 2);
    assert_eq!((s.max_surge, s.max_unavailable), (3, 2));
    let s = bounds(half(), IntOrPercentage::Int(0)).resolve(7, 2);
    assert_eq!((s.max_surge, s.max_unavailable), (7, 0));
    let strategy = |b| DeploymentStrategy::RollingUpdate { rolling_update: b };
    let a = strategy(bounds(half(), half()));
    assert!(a.same(&a.copy()));
    assert!(!a.same(&strategy(bounds(IntOrPercentage::Int(1), half()))));
    assert!(!a.same(&DeploymentStrategy::Recreate));
}

#[test]
fn rolling_updates_keep_their_bounds() {
    let s = RollingUpdateStrategy { max_surge: 1, max_unavailable: 1 };
    assert_eq!(DeploymentController::rolling_scale_up(3, s, 0, 3), Some(1));
    assert_eq!(DeploymentController::rolling_scale_up(3, s, 1, 4), None);
    assert_eq!(DeploymentController::rolling_scale_up(3, s, 3, 3), None);
    let old = vec![replicaset("old", 1, 3)];
    assert_eq!(DeploymentController::rolling_scale_down(3, s, &old, 4, 4), 1);
    assert_eq!(DeploymentController::rolling_scale_down(3, s, &old, 4, 2), 0);
    assert_eq!(DeploymentController::rolling_scale_down(3, s, &vec![], 4, 4), 0);
    let sets = vec![replicaset("a", 1, 1), replicaset("b", 2, 3), replicaset("c", 3, 2)];
    let plan = |sets: &Vec<ReplicaSet>, count: i32| {
        DeploymentController::scale_down_old_replicasets(sets, count)
    };
    // Of 1, 3 and 2 pods two are given up: one by each of the two largest.
    assert_eq!(plan(&sets, 2), vec![(1, 2), (2, 1)]);
    let pair = vec![replicaset("a", 1, 4), replicaset("b", 2, 2)];
    assert_eq!(plan(&pair, 3), vec![(0, 2), (1, 1)]);
    assert_eq!(plan(&pair, 9), vec![(0, 0), (1, 0)]);
    assert!(plan(&pair, 0).is_empty());
    assert!(plan(&vec![replicaset("a", 1, 0)], 3).is_empty());
}

#[test]
fn deployments_find_and_make_replicasets() {
    let d = deployment(3);
    assert!(matches!(
        DeploymentController::reconcile_deployment(&d),
        DeploymentStep::Roll
    ));
    let mut gone = deployment(3);
    gone.metadata.deletion_timestamp = Some(1);
    assert!(matches!(
        DeploymentController::reconcile_deployment(&gone),
        DeploymentStep::Leave
    ));
    let name = DeploymentController::replicaset_name(&d, "template");
    assert!(name.starts_with("web-"));
    assert_eq!(name.len(), 14);
    assert_eq!(name, DeploymentController::replicaset_name(&d, "template"));
    assert_ne!(name, DeploymentController::replicaset_name(&d, "another"));
    assert_ne!(
        DeploymentController::generate_hash("template", 0),
        DeploymentController::generate_hash("template", 1)
    );
    assert_eq!(hash_text_of(0xabc), hash_text_of(0xabc));
    match DeploymentController::create_replicaset(&d, name.clone(), None) {
        NewReplicaSet::Insert(rs) => {
            assert_eq!(rs.metadata.name, name);
            assert!(DeploymentController::is_owned_by(&rs.metadata, &d.metadata));
            assert!(DeploymentController::replicaset_matches_deployment(&rs, &d));
            assert!(matches!(
                DeploymentController::create_replicaset(&d, name, Some(&rs)),
                NewReplicaSet::Existing
            ));
            let (new, old) = DeploymentController::get_new_and_old_replicasets(&d, &vec![rs]);
            assert_eq!((new, old), (Some(0), vec![]));
        }
        other => panic!("{other:?}"),
    }
    match DeploymentController::create_replicaset(&d, "x".to_string(), Some(&replicaset("x", 1, 1))) {
        NewReplicaSet::Collision(m) => assert_eq!(
            m,
            "ReplicaSet name conflict detected, collision_count incremented"
        ),
        other => panic!("{other:?}"),
    }
}

#[test]
fn deployments_notice_overdue_progress() {
    let mut d = deployment(3);
    assert!(DeploymentController::check_progress_deadline(&d, 1_700_000_000, 0).is_none());
    d.status.conditions = vec![DeploymentCondition {
        condition_type: "Progressing".to_string(),
        status: "True".to_string(),
        reason: None,
        message: None,
        last_transition_time: "2023-11-14T22:00:00+00:00".to_string(),
        last_update_time: Some("2023-11-14T22:00:00+00:00".to_string()),
    }];
    // 22:13:20 is 800 seconds later.
    let c = DeploymentController::check_progress_deadline(&d, 1_700_000_000, 0).unwrap();
    assert_eq!(c.last_transition_time, "2023-11-14T22:13:20+00:00");
    assert!(DeploymentController::check_progress_deadline(&d, 1_699_999_300, 0).is_none());
    let mut stored = deployment(3);
    DeploymentController::update_condition(&mut stored, c);
    assert_eq!(stored.status.conditions.len(), 1);
}

#[test]
fn deployments_follow_changes() {
    let call = DeploymentController::handle_deployment_change(&Change::Update {
        old: deployment(3),
        new: deployment(4),
    });
    assert!(call.reconcile && call.increment_generation);
    let call = DeploymentController::handle_deployment_change(&Change::Update {
        old: deployment(3),
        new: deployment(3),
    });
    assert!(!call.reconcile);
    let mut d = deployment(3);
    DeploymentController::increment_generation(&mut d);
    let first = d.metadata.generation.unwrap();
    DeploymentController::increment_generation(&mut d);
    assert_eq!(d.metadata.generation, Some(first + 1));
    DeploymentController::increment_collision_count(&mut d);
    assert_eq!(d.status.collision_count, 1);
    let mut rs = replicaset("web", 1, 1);
    assert!(DeploymentController::scale_replicaset(1, 4, &mut rs));
    assert_eq!(rs.spec.replicas, 4);
    assert!(!DeploymentController::scale_replicaset(4, 4, &mut rs));
    rs.metadata.owner_references = Some(vec![owner(ResourceKind::Deployment, "web", 50)]);
    assert_eq!(
        DeploymentController::handle_replicaset_change(&Change::Add(rs)).as_deref(),
        Some("web")
    );
    assert_eq!(
        DeploymentController::handle_replicaset_change(&Change::Delete(replicaset("web", 1, 1))),
        None
    );
}

fn service(name: &str, pairs: Option<&[(&str, &str)]>) -> ServiceTask {
    ServiceTask {
        api_version: "v1".to_string(),
        kind: "Service".to_string(),
        metadata: ObjectMeta::bare(name.to_string(), "default".to_string(), 30),
        spec: ServiceSpec {
            service_type: "ClusterIP".to_string(),
            selector: pairs.map(selector),
            ports: vec![ServicePort {
                name: None,
                port: 80,
                target_port: Some(8080),
                protocol: "TCP".to_string(),
                node_port: None,
            }],
            cluster_ip: None,
        },
    }
}

#[test]
fn endpoints_are_the_selected_pods() {
    let svc = service("web", Some(&[("app", "web")]));
    let a = pod("a", 1, &[("app", "web")], Some("10.0.0.1"));
    let b = pod("b", 2, &[("app", "db")], Some("10.0.0.2"));
    assert!(service_selects(&svc, &a));
    assert!(!service_selects(&svc, &b));
    let e = build_endpoints_from_service_and_pods(&svc, &vec![&a, &b]).unwrap();
    assert_eq!(e.metadata.name, "web");
    let addresses: usize = e.subsets.iter().map(|s| s.addresses.len() + s.not_ready_addresses.len()).sum();
    assert_eq!(addresses, 1);
    assert!(build_endpoints_from_service_and_pods(&service("x", None), &vec![]).is_none());

    let mut c = EndpointController::new();
    let keys = c.handle_service_change(Change::Add(service("web", Some(&[("app", "web")]))));
    assert_eq!(keys.len(), 1);
    assert!(matches!(c.sync_service(&keys[0]), EndpointAction::Write(_)));
    assert!(matches!(c.sync_service("nobody"), EndpointAction::Delete));
    // A service that waits already is not called for again.
    let again = c.handle_pod_change(Change::Add(pod("a", 1, &[("app", "web")], Some("10.0.0.1"))));
    assert!(again.is_empty());
    c.work.start(&keys[0]);
    let touched = c.handle_pod_change(Change::Add(pod("a", 1, &[("app", "web")], Some("10.0.0.1"))));
    assert_eq!(touched, keys);
}

#[test]
fn work_is_merged_and_retried() {
    let key = "default/web".to_string();
    let mut q = WorkQueue::new();
    assert!(q.schedule_enqueue(&key));
    assert!(!q.schedule_enqueue(&key));
    q.timer_fired(&key);
    q.start(&key);
    let done = q.finish(&key, false);
    assert_eq!(done.retry_after, Some(wait_after(1)));
    q.start(&key);
    assert_eq!(q.finish(&key, false).retry_after, Some(wait_after(2)));
    q.start(&key);
    assert_eq!(q.finish(&key, true).retry_after, None);
    // A change that comes during the work sends the service to the queue again.
    q.start(&key);
    assert!(q.schedule_enqueue(&key));
    assert!(!q.timer_fired(&key));
    let done = q.finish(&key, true);
    assert!(done.was_dirty && done.requeue);
    assert!(!q.timer_fired(&key));
    q.start(&key);
    let done = q.finish(&key, true);
    assert!(!done.was_dirty && !done.requeue);
    assert!(wait_after(15) <= 30_000);
    assert!(wait_after(1) < wait_after(2));

    let mut n = NftQueue::new();
    assert!(n.schedule_enqueue(&key));
    n.start(&key);
    n.schedule_enqueue(&key);
    assert!(n.finish(&key, true).requeue);
}

#[test]
fn rules_are_planned_from_what_was_sent() {
    let mut c = NftablesController::new();
    let svc = service("web", Some(&[("app", "web")]));
    let (s, e) = ("svc".to_string(), "ep".to_string());
    assert!(matches!(c.plan_service("k", &s, &e, None, &svc), NftPlan::FirstSeen));
    c.service_sent("k".to_string(), "svc".to_string(), "ep".to_string());
    assert!(matches!(c.plan_service("k", &s, &e, Some(&svc), &svc), NftPlan::Unchanged));
    assert!(matches!(
        c.plan_service("k", &s, &"ep2".to_string(), Some(&svc), &svc),
        NftPlan::EndpointDiff
    ));
    c.service_removed("k");
    assert!(matches!(c.plan_service("k", &s, &e, Some(&svc), &svc), NftPlan::FirstSeen));

    let failed = c.two_phase_results(&vec![
        ("a".to_string(), true, true),
        ("b".to_string(), false, true),
        ("c".to_string(), true, false),
    ]);
    assert_eq!(failed, vec!["b", "c"]);
    assert!(c.out_of_sync.contains("b"));
    let mut pending = TextSet::new();
    pending.insert("b".to_string());
    c.two_phase_recovered(&mut pending, &vec!["b".to_string()]);
    assert!(!c.out_of_sync.contains("b"));
    assert!(!pending.contains("b"));
    assert_eq!((retry_delay(1), retry_delay(3), retry_delay(4)), (Some(300), Some(900), None));
}

#[test]
fn payloads_are_merged_in_order() {
    let merged = merge_incremental_payloads(&vec![
        "{\"nftables\":[{\"a\":1}]}".to_string(),
        "{\"nftables\":[{\"b\":2},{\"c\":3}]}".to_string(),
    ])
    .unwrap();
    let (a, b, c) = (
        merged.find("\"a\"").unwrap(),
        merged.find("\"b\"").unwrap(),
        merged.find("\"c\"").unwrap(),
    );
    assert!(a < b && b < c);
    assert!(matches!(
        merge_incremental_payloads(&vec!["x".to_string()]),
        Err(MergeError::NotJson(_))
    ));
    assert!(matches!(
        merge_incremental_payloads(&vec!["{}".to_string()]),
        Err(MergeError::NoRuleList)
    ));
    let error = merge_incremental_payloads(&vec!["x".to_string()]).unwrap_err().message();
    let start = "failed to parse incremental nftables payload as json: expected value";
    assert!(error.starts_with(start), "{error}");
    assert_eq!(
        MergeError::NoRuleList.message(),
        "incremental nftables payload missing `nftables` array"
    );
    // Items of every kind are taken over as they stand.
    let texts = vec!["{\"nftables\":[1,\"a\\\"b\",null]}".to_string()];
    assert_eq!(merge_incremental_payloads(&texts).unwrap(), texts[0]);
    let svc = service("web", None);
    assert_eq!(empty_endpoint_for_service(&svc).metadata.name, "web");
    let with = services_with(&vec![service("db", None)], &svc);
    assert_eq!(with.len(), 2);
    let without = services_without(&with, &svc);
    assert_eq!(without.len(), 1);
    assert_eq!(without[0].metadata.name, "db");
}

#[test]
fn watch_events_carry_old_and_new() {
    assert_eq!(key_prefix(ResourceKind::Pod).as_deref(), Some("/registry/pods/"));
    assert_eq!(object_key(ResourceKind::Job, "j").as_deref(), Some("/registry/jobs/j"));
    assert_eq!(object_key(ResourceKind::Unknown, "j"), None);
    assert_eq!(strip_watch_key("/registry/pods/", b"/registry/pods/a"), "a");
    assert!(matches!(watch_event(EventType::Put, b"n", None), Some(WatchEvent::Add { .. })));
    match watch_event(EventType::Put, b"n", Some(b"o")) {
        Some(WatchEvent::Update { old_yaml, new_yaml }) => {
            assert_eq!((old_yaml.as_str(), new_yaml.as_str()), ("o", "n"))
        }
        other => panic!("{other:?}"),
    }
    assert!(watch_event(EventType::Delete, b"", None).is_none());
    let (key, event) = parse_watch_event(
        "/registry/pods/",
        EventType::Delete,
        Some((b"/registry/pods/a", b"")),
        Some(b"o"),
    )
    .unwrap();
    assert_eq!(key, "a");
    assert!(matches!(event, WatchEvent::Delete { .. }));
}

#[test]
fn watches_are_retried_with_growing_waits() {
    assert_eq!(next_backoff(100), 200);
    assert_eq!(next_backoff(30_000), 30_000);
    let waits: Vec<Option<u64>> = (1..=5).map(retry_with_backoff).collect();
    assert!(waits[0].is_some());
    assert_eq!(waits[4], None);
    let mut watch = WatchLoop::new();
    let failed = WatchOutcome::SnapshotFailed;
    let waits: Vec<u64> = (0..10).map(|_| watch.run_resource_watch_loop(failed)).collect();
    assert_eq!(waits[..4], [100, 200, 400, 800]);
    assert_eq!(waits[9], 30_000);
    assert_eq!(watch.run_resource_watch_loop(WatchOutcome::StreamEnded), 100);
    assert_eq!(watch.run_resource_watch_loop(WatchOutcome::WatchFailed), 200);
    assert_eq!(WatchLoop::start_revision(41), 42);
}

#[test]
fn events_go_to_the_controllers_that_watch_them() {
    let mut m = ControllerManager::new();
    let both = vec![ResourceKind::Service, ResourceKind::Pod];
    assert!(m.register("pods".to_string(), vec![ResourceKind::Pod], 1, Ok(())).is_ok());
    assert!(m.register("services".to_string(), vec![ResourceKind::Service], 1, Ok(())).is_ok());
    assert!(m.register("both".to_string(), both, 1, Ok(())).is_ok());
    let failed = Err("no store".to_string());
    let refused = m.register("broken".to_string(), vec![ResourceKind::Pod], 1, failed);
    assert_eq!(refused, Err("no store".to_string()));
    let event = WatchEvent::Add { yaml: "y".to_string() };
    let mut sent = m.broadcast_resource_event(ResourceKind::Pod, "a".to_string(), event);
    sent.sort_by(|x, y| x.0.cmp(&y.0));
    assert_eq!(sent.len(), 2);
    assert_eq!((sent[0].0.as_str(), sent[1].0.as_str()), ("both", "pods"));
    assert_eq!(sent[0].1.key, "a");
    assert!(matches!(&sent[1].1.event, WatchEvent::Add { yaml } if yaml == "y"));

    let (name, key) = ("pods".to_string(), "a".to_string());
    assert!(m.begin_event(&name, &key));
    assert!(!m.begin_event(&name, &key));
    assert!(m.begin_event(&"both".to_string(), &key));
    m.end_event(&name, &key);
    assert!(m.begin_event(&name, &key));
    assert!(!m.begin_event(&"unknown".to_string(), &key));
    m.shutdown();
    m.end_event(&name, &key);
    assert!(!m.begin_event(&name, &key));
    m.shutdown();
    assert_eq!(m.get_senders_by_kind(ResourceKind::Service).len(), 2);
    assert!(m.get_senders_by_kind(ResourceKind::Job).is_empty());
}

#[test]
fn controllers_handle_so_many_events_at_once() {
    let mut m = ControllerManager::new();
    let name = "pods".to_string();
    assert!(m.register(name.clone(), vec![ResourceKind::Pod], 2, Ok(())).is_ok());
    for key in ["a", "b", "c"] {
        assert!(m.begin_event(&name, &key.to_string()));
    }
    assert!(m.start_work(&name));
    assert!(m.start_work(&name));
    assert!(!m.start_work(&name));
    m.end_event(&name, &"a".to_string());
    assert!(m.start_work(&name));
    assert!(!m.start_work(&name));
    assert!(!m.start_work(&"unknown".to_string()));
}

#[test]
fn deployments_count_their_pods() {
    let mut a = replicaset("a", 1, 2);
    a.status.available_replicas = 2;
    a.status.ready_replicas = 2;
    a.status.replicas = 2;
    let b = replicaset("b", 2, 3);
    let d = deployment(3);
    assert_eq!(DeploymentController::calculate_replica(&vec![a, b]), (5, 2, 2));
    let old = vec![replicaset("x", 1, 0), replicaset("y", 2, 2)];
    assert_eq!(DeploymentController::recreate_update(&d, 1, &old), (vec![1], Some(3)));
    assert_eq!(DeploymentController::recreate_update(&d, 3, &vec![]), (vec![], None));
    let still = RollingUpdateStrategy { max_surge: 0, max_unavailable: 1 };
    let (st, step) =
        DeploymentController::rolling_update(3, still, 0, vec![replicaset("old", 1, 3)], 3);
    assert_eq!((step.new_set, step.old_sets), (None, vec![]));
    let mut running = replicaset("old", 1, 4);
    running.status.available_replicas = 3;
    let (st, step) = DeploymentController::rollout_step(st, &vec![running]);
    assert_eq!((step.new_set, step.old_sets), (None, vec![(0, 2)]));
    assert!(matches!(st, Rollout::Shrunk { new_replicas: 0, .. }));
    let (st, step) = DeploymentController::rollout_step(st, &vec![replicaset("old", 1, 2)]);
    assert_eq!((step.new_set, step.old_sets), (Some(1), vec![]));
    assert!(matches!(st, Rollout::Ended));
    let (st, step) = DeploymentController::rolling_update(3, still, 1, vec![], 1);
    assert_eq!(step.new_set, Some(3));
    assert!(matches!(st, Rollout::Ended));
    assert_eq!(DeploymentController::update_observed_generation(&d), Some(0));
    let mut stored = deployment(3);
    let mut own = replicaset("web", 1, 2);
    own.status.available_replicas = 1;
    own.status.replicas = 2;
    DeploymentController::update_deployment_status(&d, &vec![own], &mut stored);
    assert_eq!(stored.status.available_replicas, 1);
    assert_eq!(stored.status.unavailable_replicas, 2);
    assert_eq!(stored.status.replicas, 2);
}

#[test]
fn old_replicasets_are_cleaned_up() {
    let aged = |name: &str, uid: u128, time: i128| {
        let mut rs = replicaset(name, uid, 0);
        rs.metadata.creation_timestamp = Some(time);
        rs.metadata.owner_references = Some(vec![owner(ResourceKind::Deployment, "web", 50)]);
        rs
    };
    let d = deployment(3);
    let sets = vec![aged("new", 1, 30), aged("oldest", 2, 10), aged("older", 3, 20)];
    assert_eq!(DeploymentController::clean_old_replicasets(&d, &sets), vec![1, 2]);
    assert_eq!(DeploymentController::owned_replicasets(&d, &sets), vec![0, 1, 2]);
    assert!(DeploymentController::owned_replicasets(&d, &vec![replicaset("x", 9, 0)]).is_empty());
    assert!(DeploymentController::find_replicaset(&d, &sets).is_some());
}

#[test]
fn job_changes_call_for_the_job() {
    let j = || job(1, 1, CompletionMode::NonIndexed);
    assert_eq!(JobController::handle_job_change(&Change::Add(j())).as_deref(), Some("batch"));
    assert_eq!(JobController::handle_job_change(&Change::Delete(j())), None);
    assert!(JobController::is_reconciled(&j()));
    let mut gone = j();
    gone.metadata.deletion_timestamp = Some(1);
    assert!(!JobController::is_reconciled(&gone));
    assert_eq!(JobController::generate_pod_name("batch", 7, true), None);
    assert_eq!(
        JobController::generate_pod_name("batch", 7, false).as_deref(),
        Some("batch-00000007")
    );
    let mut failed = j();
    JobController::mark_job_failed(&mut failed, "Because", "message".to_string(), SECOND);
    assert!(JobController::has_condition(&failed, JobConditionType::Failed));
    let p = JobController::create_job_pod(&j(), "batch-x".to_string(), SECOND);
    assert!(JobController::is_owned_by_job(&p, &j()));
    assert_eq!(
        JobController::terminate_active_pods(&vec![job_pod("a", PodPhase::Running)], 70),
        vec!["a"]
    );
}

#[test]
fn rules_that_were_not_sent_are_noted() {
    let mut c = NftablesController::new();
    c.seed_snapshots(
        &vec![("k".to_string(), "svc".to_string())],
        &vec![("k".to_string(), "ep".to_string())],
    );
    assert_eq!(c.snapshot("k"), ("svc".to_string(), "ep".to_string()));
    assert_eq!(c.snapshot("x"), ("".to_string(), "".to_string()));
    assert!(c.incremental_results(&vec![]));
    assert!(!c.incremental_results(&vec!["a".to_string()]));
    assert!(c.out_of_sync.contains("a"));
    assert!(!c.message_results(&vec!["b".to_string()]));
    assert!(c.recent_failed.contains("b"));
    c.message_recovered(&vec!["b".to_string()]);
    assert!(!c.recent_failed.contains("b"));
    let key = "k".to_string();
    assert!(c.queue.schedule_enqueue(&key));
    c.queue.send_failed(&key);
    assert!(c.queue.schedule_enqueue(&key));
}

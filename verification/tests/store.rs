use rks::api::xlinestore::{
    first_value, first_value_with_revision, flannel_config, network_config_key, node_key,
    DeleteStep, XlineStore,
};
use rks::internal::{generate_join_token, refresh_registry_credentials};
use rks::protocol::meta::{DeletePropagationPolicy, Finalizer, ObjectMeta, ResourceKind};
use rks::protocol::pod::{PodSpec, PodStatus, PodTask, RestartPolicy};
use rks::scheduler::{Assignment, Scheduler};

fn meta() -> ObjectMeta {
    ObjectMeta::bare("web".to_string(), "default".to_string(), 7)
}

#[test]
fn keys_and_names() {
    assert_eq!(node_key("n1"), "/registry/nodes/n1");
    assert_eq!(network_config_key("/coreos.com/network//"), "/coreos.com/network/config");
    assert_eq!(flannel_config().0, "/coreos.com/network/config");
    assert_eq!(
        flannel_config().1,
        r#"{
            "Network": "10.244.0.0/16",
            "SubnetLen": 24,
            "Backend": {
                "Type": "vxlan",
                "VNI": 1
            }
        }"#
    );
    assert_eq!(
        XlineStore::list_pod_names(&vec![b"/registry/pods/a".to_vec(), b"/registry/pods/b".to_vec()]),
        vec!["a", "b"]
    );
    assert_eq!(XlineStore::list_node_names(&vec![b"/registry/nodes/a".to_vec()]), vec!["a"]);
    assert_eq!(XlineStore::list_service_names(&vec![b"/registry/services/a".to_vec()]), vec!["a"]);
    assert_eq!(XlineStore::insert_node("n").unwrap(), "/registry/nodes/n");
    assert_eq!(XlineStore::insert_node("").unwrap_err(), "node.metadata.name is empty");
}

#[test]
fn snapshots_keep_the_revision() {
    let entries = vec![(b"/registry/pods/a".to_vec(), b"yaml".to_vec())];
    assert_eq!(
        XlineStore::pods_snapshot_with_rev(&entries, Some(9)),
        (vec![("a".to_string(), "yaml".to_string())], 9)
    );
    assert_eq!(XlineStore::services_snapshot_with_rev(&vec![], None), (vec![], 0));
    let entries = vec![(b"/registry/endpoints/web".to_vec(), b"e".to_vec())];
    assert_eq!(
        XlineStore::endpoints_snapshot_with_rev(&entries, Some(3)),
        (vec![("web".to_string(), "e".to_string())], 3)
    );
    let entries = vec![(b"/registry/replicasets/rs".to_vec(), b"r".to_vec())];
    assert_eq!(
        XlineStore::replicasets_snapshot_with_rev(&entries, Some(4)),
        (vec![("rs".to_string(), "r".to_string())], 4)
    );
    assert_eq!(
        XlineStore::deployments_snapshot_with_rev(
            &vec![(b"/registry/deployments/d".to_vec(), vec![0xff])],
            None
        ),
        (vec![("d".to_string(), "\u{fffd}".to_string())], 0)
    );
    assert_eq!(first_value(&vec![b"x".to_vec(), b"y".to_vec()]), Some("x".to_string()));
    assert_eq!(first_value(&vec![]), None);
    assert_eq!(
        first_value_with_revision(&vec![(b"x".to_vec(), 4)]),
        Some(("x".to_string(), 4))
    );
}

#[test]
fn background_deletion_removes_at_once() {
    match XlineStore::delete_object(
        ResourceKind::Pod,
        "web",
        DeletePropagationPolicy::Background,
        Some(meta()),
        5,
    ) {
        DeleteStep::Remove(key) => assert_eq!(key, "/registry/pods/web"),
        other => panic!("{other:?}"),
    }
    let mut held = meta();
    held.finalizers = Some(vec![Finalizer::OrphanDependents]);
    match XlineStore::delete_object(
        ResourceKind::Pod,
        "web",
        DeletePropagationPolicy::Background,
        Some(held),
        5,
    ) {
        DeleteStep::UpdateMeta(key, m) => {
            assert_eq!(key, "/registry/pods/web");
            assert_eq!(m.deletion_timestamp, Some(5));
            assert_eq!(m.finalizers, Some(vec![Finalizer::OrphanDependents]));
        }
        other => panic!("{other:?}"),
    }
}

#[test]
fn foreground_and_orphan_deletion_leave_a_finalizer() {
    for (policy, finalizer) in [
        (DeletePropagationPolicy::Foreground, Finalizer::DeletingDependents),
        (DeletePropagationPolicy::Orphan, Finalizer::OrphanDependents),
    ] {
        match XlineStore::delete_object(ResourceKind::Deployment, "web", policy, Some(meta()), 5) {
            DeleteStep::UpdateMeta(key, m) => {
                assert_eq!(key, "/registry/deployments/web");
                assert_eq!(m.deletion_timestamp, Some(5));
                assert_eq!(m.finalizers, Some(vec![finalizer]));
                // A second deletion does not take it out either.
                assert!(matches!(
                    XlineStore::delete_object(
                        ResourceKind::Deployment,
                        "web",
                        DeletePropagationPolicy::Background,
                        Some(m),
                        6
                    ),
                    DeleteStep::UpdateMeta(_, _)
                ));
            }
            other => panic!("{other:?}"),
        }
    }
}

#[test]
fn nothing_to_delete() {
    let b = DeletePropagationPolicy::Background;
    assert!(matches!(
        XlineStore::delete_object(ResourceKind::Pod, "web", b, None, 5),
        DeleteStep::Nothing
    ));
    assert!(matches!(
        XlineStore::delete_object(ResourceKind::Unknown, "web", b, Some(meta()), 5),
        DeleteStep::Nothing
    ));
}

#[test]
fn assignments_set_the_node() {
    let pod = PodTask {
        api_version: "v1".to_string(),
        kind: "Pod".to_string(),
        metadata: meta(),
        spec: PodSpec {
            node_name: Some("old".to_string()),
            containers: vec![],
            init_containers: vec![],
            restart_policy: RestartPolicy::Never,
            volumes: vec![],
            rest: String::new(),
        },
        status: PodStatus::fresh(),
    };
    let assignment = || Assignment { pod_name: "web".to_string(), node_name: "n2".to_string() };
    let (name, stored) = Scheduler::run(assignment(), Some(pod)).unwrap();
    assert_eq!(name, "web");
    assert_eq!(stored.spec.node_name.as_deref(), Some("n2"));
    assert_eq!(stored.spec.restart_policy, RestartPolicy::Never);
    assert!(Scheduler::run(assignment(), None).is_none());
}

#[test]
fn credentials_are_pushed_to_workers() {
    assert_eq!(
        refresh_registry_credentials(Ok(()), &vec![true, false, true]).unwrap(),
        "Pushed credentials to 2/3 workers"
    );
    assert_eq!(
        refresh_registry_credentials(Err("x".to_string()), &vec![]).unwrap_err(),
        "Failed to load credentials from vault: x"
    );
    assert_eq!(generate_join_token(Ok("t".to_string())), "t");
    assert_eq!(generate_join_token(Err("e".to_string())), "e");
}

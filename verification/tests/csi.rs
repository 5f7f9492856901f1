use rks::csi::controller::{build_volume, generate_volume_id, RksCsiController};
use rks::csi::identity::{PluginCapability, RksCsiIdentity};
use rks::csi::orchestrator::{
    csi_result, deprovision_step, provision_and_mount, provision_step, unmount_and_deprovision,
    DeprovisionStep, PendingRequests, ProvisionStep, Reply, StepOutcome,
};
use rks::csi::volume::{
    AccessMode, CreateVolumeRequest, CsiError, CsiMessage, VolumeCapability, VolumeId,
};
use rks::csi::volume_store::VolumeStore;
use rks::protocol::labels::LabelMap;

fn request(name: &str) -> CreateVolumeRequest {
    CreateVolumeRequest {
        name: name.to_string(),
        capacity_bytes: 1024 * 1024,
        volume_capabilities: vec![VolumeCapability { access_mode: AccessMode::ReadWriteOnce }],
        parameters: LabelMap::new(),
    }
}

#[test]
fn generate_volume_id_format() {
    let id = generate_volume_id();
    assert!(id.0.starts_with("vol-"));
    // A UUID has 36 characters, and the prefix makes 40.
    assert_eq!(id.0.len(), 40);
    assert_ne!(generate_volume_id().0, generate_volume_id().0);
}

#[test]
fn build_volume_from_request() {
    let req = request("test-vol");
    let vol_id = generate_volume_id();
    let vol = build_volume(vol_id.copy(), &req);
    assert_eq!(vol.volume_id.0, vol_id.0);
    assert_eq!(vol.capacity_bytes, req.capacity_bytes);
    assert_eq!(vol.volume_context.get("name").unwrap(), "test-vol");
    assert!(vol.accessible_topology.is_empty());
}

#[test]
fn plugin_info() {
    let identity = RksCsiIdentity;
    let info = identity.get_plugin_info();
    assert_eq!(info.name, "rk8s.slayerfs.csi");
    assert!(!info.vendor_version.is_empty());
}

#[test]
fn plugin_capabilities() {
    let identity = RksCsiIdentity;
    let caps = identity.get_plugin_capabilities();
    assert!(caps.contains(&PluginCapability::ControllerService));
}

#[test]
fn probe_returns_true() {
    let identity = RksCsiIdentity;
    assert!(identity.probe());
}

#[test]
fn key_for_volume_id() {
    let id = VolumeId("vol-abc-123".into());
    assert_eq!(VolumeStore::key(&id), "/registry/volumes/vol-abc-123");
}

#[test]
fn volumes_are_deleted_once() {
    assert!(RksCsiController::delete_volume(true));
    assert!(!RksCsiController::delete_volume(false));
    assert_eq!(RksCsiController::get_capacity(), 0);
}

#[test]
fn volumes_need_a_name() {
    assert!(matches!(
        RksCsiController::create_volume(&request("")),
        Err(CsiError::InvalidArgument(_))
    ));
    assert!(RksCsiController::create_volume(&request("v")).is_ok());
    let id = VolumeId("vol-1".to_string());
    assert!(RksCsiController::validate_volume_capabilities(&id, true).is_ok());
    assert!(matches!(
        RksCsiController::validate_volume_capabilities(&id, false),
        Err(CsiError::VolumeNotFound(_))
    ));
}

#[test]
fn provisioning_creates_stages_and_publishes() {
    let (st, step) = provision_and_mount(request("v"), "/target".to_string());
    assert!(matches!(step, ProvisionStep::Create(_)));
    let vol = build_volume(VolumeId("vol-1".to_string()), &request("v"));
    let (st, step) = provision_step(st, StepOutcome::Created(vol));
    assert!(matches!(step, ProvisionStep::Send(CsiMessage::StageVolume { .. })));
    let (st, step) = provision_step(st, StepOutcome::Succeeded);
    match step {
        ProvisionStep::Send(CsiMessage::PublishVolume { target_path, .. }) => {
            assert_eq!(target_path, "/target")
        }
        other => panic!("{other:?}"),
    }
    let (_, step) = provision_step(st, StepOutcome::Succeeded);
    match step {
        ProvisionStep::Done(v) => assert_eq!(v.volume_id.0, "vol-1"),
        other => panic!("{other:?}"),
    }
}

#[test]
fn failed_publication_is_undone() {
    let (st, _) = provision_and_mount(request("v"), "/target".to_string());
    let vol = build_volume(VolumeId("vol-1".to_string()), &request("v"));
    let (st, _) = provision_step(st, StepOutcome::Created(vol));
    let (st, _) = provision_step(st, StepOutcome::Succeeded);
    let (st, step) = provision_step(st, StepOutcome::Failed(CsiError::Internal("x".to_string())));
    assert!(matches!(step, ProvisionStep::Send(CsiMessage::UnstageVolume { .. })));
    let (st, step) = provision_step(st, StepOutcome::Failed(CsiError::Internal("y".to_string())));
    assert!(matches!(step, ProvisionStep::Delete(_)));
    let (_, step) = provision_step(st, StepOutcome::Succeeded);
    match step {
        ProvisionStep::Failed(CsiError::Internal(m)) => assert_eq!(m, "x"),
        other => panic!("{other:?}"),
    }
}

#[test]
fn deprovisioning_goes_on_after_failures() {
    let (st, step) = unmount_and_deprovision(VolumeId("vol-1".to_string()), "/t".to_string());
    assert!(matches!(step, DeprovisionStep::Send(CsiMessage::UnpublishVolume { .. })));
    let (st, step) = deprovision_step(st, Err(CsiError::Internal("first".to_string())));
    assert!(matches!(step, DeprovisionStep::Send(CsiMessage::UnstageVolume { .. })));
    let (st, step) = deprovision_step(st, Err(CsiError::Internal("second".to_string())));
    assert!(matches!(step, DeprovisionStep::Delete(_)));
    let (_, step) = deprovision_step(st, Ok(()));
    match step {
        DeprovisionStep::Failed(CsiError::Internal(m)) => assert_eq!(m, "first"),
        other => panic!("{other:?}"),
    }
}

#[test]
fn replies_are_results() {
    let answer = |message| Reply::Answer { message, text: "shown".to_string() };
    assert!(csi_result("n", answer(CsiMessage::Done)).is_ok());
    for (reply, expected) in [
        (Reply::NoSession, "node n not found in registry"),
        (Reply::TimedOut, "CSI request to node n timed out after 30s"),
        (Reply::Dropped, "CSI response channel dropped for node n"),
        (answer(CsiMessage::Error(CsiError::Internal("x".to_string()))), "x"),
        (
            answer(CsiMessage::UnpublishVolume {
                volume_id: VolumeId("v".to_string()),
                target_path: "/t".to_string(),
            }),
            "unexpected CSI response: shown",
        ),
    ] {
        match csi_result("n", reply) {
            Err(CsiError::Internal(m)) => assert_eq!(m, expected),
            other => panic!("{other:?}"),
        }
    }
    match csi_result("n", Reply::SendFailed("x".to_string())) {
        Err(CsiError::Transport(m)) => assert_eq!(m, "failed to send to node n: x"),
        other => panic!("{other:?}"),
    }
    let mut pending = PendingRequests::new();
    pending.register(5);
    assert!(pending.route_response(5));
    assert!(!pending.route_response(5));
    assert!(!pending.route_response(6));
}

//! Pods: what they run and how they are.
use vstd::prelude::*;
use crate::protocol::meta::{ObjectMeta, ObjectMetaView};
use crate::protocol::value::Value;

verus! {

/// An environment variable of a container.
#[derive(Debug)]
pub struct EnvVar {
    pub name: String,
    pub value: Option<String>,
}

/// A port that a container listens on.
#[derive(Debug)]
pub struct Port {
    pub container_port: i32,
    pub protocol: String,
    pub host_port: i32,
    pub host_ip: String,
}

/// Amounts of resources, in the notation of the manifest.
#[derive(Debug)]
pub struct Resource {
    pub cpu: Option<String>,
    pub memory: Option<String>,
}

/// The resources of a container.
#[derive(Debug)]
pub struct ContainerRes {
    pub limits: Option<Resource>,
}

/// A container of a pod.
#[derive(Debug)]
pub struct ContainerSpec {
    pub name: String,
    pub image: String,
    pub ports: Vec<Port>,
    pub args: Vec<String>,
    pub resources: Option<ContainerRes>,
    pub env: Option<Vec<EnvVar>>,
    /// The other fields, as JSON text; no text where there are none.
    pub rest: String,
}

/// When containers are started again.
#[derive(Debug, Clone, Copy, PartialEq, Eq, Structural)]
pub enum RestartPolicy {
    Always,
    OnFailure,
    Never,
}

/// Where the contents of a volume come from. The configuration of a SlayerFS volume and
/// any other source are carried as JSON text.
#[derive(Debug)]
pub enum VolumeSource {
    SlayerFs { capacity_bytes: Option<u64>, config: Option<String> },
    Other(String),
}

/// A volume of a pod.
#[derive(Debug)]
pub struct PodVolume {
    pub name: String,
    pub source: VolumeSource,
}

/// What a pod runs, and where.
#[derive(Debug)]
pub struct PodSpec {
    pub node_name: Option<String>,
    pub containers: Vec<ContainerSpec>,
    pub init_containers: Vec<ContainerSpec>,
    pub restart_policy: RestartPolicy,
    pub volumes: Vec<PodVolume>,
    /// The other fields, tolerations among them, as JSON text; no text where there are none.
    pub rest: String,
}

/// The phase of a pod's life.
#[derive(Debug, Clone, Copy, PartialEq, Eq, Structural)]
pub enum PodPhase {
    Pending,
    Running,
    Succeeded,
    Failed,
    Unknown,
}

/// How a pod is.
#[derive(Debug)]
pub struct PodStatus {
    pub phase: PodPhase,
    pub pod_ip: Option<String>,
    pub message: Option<String>,
}

/// A pod.
#[derive(Debug)]
pub struct PodTask {
    pub api_version: String,
    pub kind: String,
    pub metadata: ObjectMeta,
    pub spec: PodSpec,
    pub status: PodStatus,
}

/// A pod that is still to be made.
#[derive(Debug)]
pub struct PodTemplateSpec {
    pub metadata: ObjectMeta,
    pub spec: PodSpec,
}

pub struct EnvVarView {
    pub name: Seq<char>,
    pub value: Option<Seq<char>>,
}

pub struct PortView {
    pub container_port: i32,
    pub protocol: Seq<char>,
    pub host_port: i32,
    pub host_ip: Seq<char>,
}

pub struct ResourceView {
    pub cpu: Option<Seq<char>>,
    pub memory: Option<Seq<char>>,
}

pub struct ContainerResView {
    pub limits: Option<ResourceView>,
}

pub struct ContainerSpecView {
    pub name: Seq<char>,
    pub image: Seq<char>,
    pub ports: Seq<PortView>,
    pub args: Seq<Seq<char>>,
    pub resources: Option<ContainerResView>,
    pub env: Option<Seq<EnvVarView>>,
    pub rest: Seq<char>,
}

pub enum VolumeSourceView {
    SlayerFs { capacity_bytes: Option<u64>, config: Option<Seq<char>> },
    Other(Seq<char>),
}

pub struct PodVolumeView {
    pub name: Seq<char>,
    pub source: VolumeSourceView,
}

pub struct PodSpecView {
    pub node_name: Option<Seq<char>>,
    pub containers: Seq<ContainerSpecView>,
    pub init_containers: Seq<ContainerSpecView>,
    pub restart_policy: RestartPolicy,
    pub volumes: Seq<PodVolumeView>,
    pub rest: Seq<char>,
}

pub struct PodStatusView {
    pub phase: PodPhase,
    pub pod_ip: Option<Seq<char>>,
    pub message: Option<Seq<char>>,
}

pub struct PodTaskView {
    pub api_version: Seq<char>,
    pub kind: Seq<char>,
    pub metadata: ObjectMetaView,
    pub spec: PodSpecView,
    pub status: PodStatusView,
}

pub struct PodTemplateSpecView {
    pub metadata: ObjectMetaView,
    pub spec: PodSpecView,
}

impl DeepView for EnvVar {
    type V = EnvVarView;

    open spec fn deep_view(&self) -> EnvVarView {
        EnvVarView { name: self.name@, value: self.value.deep_view() }
    }
}

impl DeepView for Port {
    type V = PortView;

    open spec fn deep_view(&self) -> PortView {
        PortView {
            container_port: self.container_port,
            protocol: self.protocol@,
            host_port: self.host_port,
            host_ip: self.host_ip@,
        }
    }
}

impl DeepView for Resource {
    type V = ResourceView;

    open spec fn deep_view(&self) -> ResourceView {
        ResourceView { cpu: self.cpu.deep_view(), memory: self.memory.deep_view() }
    }
}

impl DeepView for ContainerRes {
    type V = ContainerResView;

    open spec fn deep_view(&self) -> ContainerResView {
        ContainerResView { limits: self.limits.deep_view() }
    }
}

impl DeepView for ContainerSpec {
    type V = ContainerSpecView;

    open spec fn deep_view(&self) -> ContainerSpecView {
        ContainerSpecView {
            name: self.name@,
            image: self.image@,
            ports: self.ports.deep_view(),
            args: self.args.deep_view(),
            resources: self.resources.deep_view(),
            env: self.env.deep_view(),
            rest: self.rest@,
        }
    }
}

impl DeepView for VolumeSource {
    type V = VolumeSourceView;

    open spec fn deep_view(&self) -> VolumeSourceView {
        match self {
            VolumeSource::SlayerFs { capacity_bytes, config } => VolumeSourceView::SlayerFs {
                capacity_bytes: *capacity_bytes,
                config: config.deep_view(),
            },
            VolumeSource::Other(s) => VolumeSourceView::Other(s@),
        }
    }
}

impl DeepView for PodVolume {
    type V = PodVolumeView;

    open spec fn deep_view(&self) -> PodVolumeView {
        PodVolumeView { name: self.name@, source: self.source.deep_view() }
    }
}

impl DeepView for PodSpec {
    type V = PodSpecView;

    open spec fn deep_view(&self) -> PodSpecView {
        PodSpecView {
            node_name: self.node_name.deep_view(),
            containers: self.containers.deep_view(),
            init_containers: self.init_containers.deep_view(),
            restart_policy: self.restart_policy,
            volumes: self.volumes.deep_view(),
            rest: self.rest@,
        }
    }
}

impl DeepView for PodStatus {
    type V = PodStatusView;

    open spec fn deep_view(&self) -> PodStatusView {
        PodStatusView {
            phase: self.phase,
            pod_ip: self.pod_ip.deep_view(),
            message: self.message.deep_view(),
        }
    }
}

impl DeepView for PodTask {
    type V = PodTaskView;

    open spec fn deep_view(&self) -> PodTaskView {
        PodTaskView {
            api_version: self.api_version@,
            kind: self.kind@,
            metadata: self.metadata.deep_view(),
            spec: self.spec.deep_view(),
            status: self.status.deep_view(),
        }
    }
}

impl DeepView for PodTemplateSpec {
    type V = PodTemplateSpecView;

    open spec fn deep_view(&self) -> PodTemplateSpecView {
        PodTemplateSpecView { metadata: self.metadata.deep_view(), spec: self.spec.deep_view() }
    }
}

impl Value for EnvVar {
    fn same(&self, other: &Self) -> (r: bool) {
        self.name.same(&other.name) && self.value.same(&other.value)
    }

    fn copy(&self) -> (r: Self) {
        EnvVar { name: self.name.clone(), value: self.value.copy() }
    }
}

impl Value for Port {
    fn same(&self, other: &Self) -> (r: bool) {
        self.container_port == other.container_port && self.protocol.same(&other.protocol)
            && self.host_port == other.host_port && self.host_ip.same(&other.host_ip)
    }

    fn copy(&self) -> (r: Self) {
        Port {
            container_port: self.container_port,
            protocol: self.protocol.clone(),
            host_port: self.host_port,
            host_ip: self.host_ip.clone(),
        }
    }
}

impl Value for Resource {
    fn same(&self, other: &Self) -> (r: bool) {
        self.cpu.same(&other.cpu) && self.memory.same(&other.memory)
    }

    fn copy(&self) -> (r: Self) {
        Resource { cpu: self.cpu.copy(), memory: self.memory.copy() }
    }
}

impl Value for ContainerRes {
    fn same(&self, other: &Self) -> (r: bool) {
        self.limits.same(&other.limits)
    }

    fn copy(&self) -> (r: Self) {
        ContainerRes { limits: self.limits.copy() }
    }
}

impl Value for ContainerSpec {
    fn same(&self, other: &Self) -> (r: bool) {
        self.name.same(&other.name) && self.image.same(&other.image) && self.ports.same(
            &other.ports,
        ) && self.args.same(&other.args) && self.resources.same(&other.resources)
            && self.env.same(&other.env) && self.rest.same(&other.rest)
    }

    fn copy(&self) -> (r: Self) {
        ContainerSpec {
            name: self.name.clone(),
            image: self.image.clone(),
            ports: self.ports.copy(),
            args: self.args.copy(),
            resources: self.resources.copy(),
            env: self.env.copy(),
            rest: self.rest.clone(),
        }
    }
}

impl Value for VolumeSource {
    fn same(&self, other: &Self) -> (r: bool) {
        match (self, other) {
            (
                VolumeSource::SlayerFs { capacity_bytes: a, config: b },
                VolumeSource::SlayerFs { capacity_bytes: c, config: d },
            ) => a.same(c) && b.same(d),
            (VolumeSource::Other(a), VolumeSource::Other(b)) => a.same(b),
            _ => false,
        }
    }

    fn copy(&self) -> (r: Self) {
        match self {
            VolumeSource::SlayerFs { capacity_bytes, config } => VolumeSource::SlayerFs {
                capacity_bytes: *capacity_bytes,
                config: config.copy(),
            },
            VolumeSource::Other(s) => VolumeSource::Other(s.clone()),
        }
    }
}

impl Value for PodVolume {
    fn same(&self, other: &Self) -> (r: bool) {
        self.name.same(&other.name) && self.source.same(&other.source)
    }

    fn copy(&self) -> (r: Self) {
        PodVolume { name: self.name.clone(), source: self.source.copy() }
    }
}

impl Value for PodSpec {
    fn same(&self, other: &Self) -> (r: bool) {
        self.node_name.same(&other.node_name) && self.containers.same(&other.containers)
            && self.init_containers.same(&other.init_containers) && self.restart_policy
            == other.restart_policy && self.volumes.same(&other.volumes) && self.rest.same(
            &other.rest,
        )
    }

    fn copy(&self) -> (r: Self) {
        PodSpec {
            node_name: self.node_name.copy(),
            containers: self.containers.copy(),
            init_containers: self.init_containers.copy(),
            restart_policy: self.restart_policy,
            volumes: self.volumes.copy(),
            rest: self.rest.clone(),
        }
    }
}

impl Value for PodStatus {
    fn same(&self, other: &Self) -> (r: bool) {
        self.phase == other.phase && self.pod_ip.same(&other.pod_ip) && self.message.same(
            &other.message,
        )
    }

    fn copy(&self) -> (r: Self) {
        PodStatus {
            phase: self.phase,
            pod_ip: self.pod_ip.copy(),
            message: self.message.copy(),
        }
    }
}

impl Value for PodTask {
    fn same(&self, other: &Self) -> (r: bool) {
        self.api_version.same(&other.api_version) && self.kind.same(&other.kind)
            && self.metadata.same(&other.metadata) && self.spec.same(&other.spec)
            && self.status.same(&other.status)
    }

    fn copy(&self) -> (r: Self) {
        PodTask {
            api_version: self.api_version.clone(),
            kind: self.kind.clone(),
            metadata: self.metadata.copy(),
            spec: self.spec.copy(),
            status: self.status.copy(),
        }
    }
}

impl Value for PodTemplateSpec {
    fn same(&self, other: &Self) -> (r: bool) {
        self.metadata.same(&other.metadata) && self.spec.same(&other.spec)
    }

    fn copy(&self) -> (r: Self) {
        PodTemplateSpec { metadata: self.metadata.copy(), spec: self.spec.copy() }
    }
}

/// The status of a pod that was just made.
pub open spec fn new_status() -> PodStatusView {
    PodStatusView { phase: PodPhase::Pending, pod_ip: None, message: None }
}

impl PodStatus {
    /// The status of a pod that was just made.
    pub fn fresh() -> (r: PodStatus)
        ensures
            r.deep_view() == new_status(),
    {
        PodStatus { phase: PodPhase::Pending, pod_ip: None, message: None }
    }
}

/// The protocol of a port that names none.
pub fn default_protocol() -> (r: String)
    ensures
        r@ == "TCP"@,
{
    "TCP".to_owned()
}

/// Whether two containers are described alike, field by field.
pub open spec fn same_container(a: ContainerSpec, b: ContainerSpec) -> bool {
    &&& a.name@ == b.name@
    &&& a.image@ == b.image@
    &&& a.ports@.len() == b.ports@.len()
    &&& forall|i: int|
        0 <= i < a.ports@.len() ==> (#[trigger] a.ports@[i]).container_port
            == b.ports@[i].container_port && a.ports@[i].protocol@ == b.ports@[i].protocol@
            && a.ports@[i].host_port == b.ports@[i].host_port && a.ports@[i].host_ip@
            == b.ports@[i].host_ip@
    &&& a.args.deep_view() == b.args.deep_view()
    &&& same_resources(a.resources, b.resources)
    &&& match (a.env, b.env) {
        (Some(x), Some(y)) => same_variables(x@, y@),
        (None, None) => true,
        _ => false,
    }
    &&& a.rest@ == b.rest@
}

/// Whether two containers have the same limits.
pub open spec fn same_resources(a: Option<ContainerRes>, b: Option<ContainerRes>) -> bool {
    match (a, b) {
        (Some(x), Some(y)) => match (x.limits, y.limits) {
            (Some(u), Some(v)) => u.cpu.deep_view() == v.cpu.deep_view() && u.memory.deep_view()
                == v.memory.deep_view(),
            (None, None) => true,
            _ => false,
        },
        (None, None) => true,
        _ => false,
    }
}

/// Whether two lists hold the same variables with the same values.
pub open spec fn same_variables(a: Seq<EnvVar>, b: Seq<EnvVar>) -> bool {
    &&& a.len() == b.len()
    &&& forall|i: int|
        0 <= i < a.len() ==> (#[trigger] a[i]).name@ == b[i].name@ && a[i].value.deep_view()
            == b[i].value.deep_view()
}

/// Whether two lists describe the same containers.
pub open spec fn same_containers(a: Seq<ContainerSpec>, b: Seq<ContainerSpec>) -> bool {
    a.len() == b.len() && forall|i: int| 0 <= i < a.len() ==> same_container(#[trigger] a[i], b[i])
}

/// Whether two lists describe the same volumes.
pub open spec fn same_volumes(a: Seq<PodVolume>, b: Seq<PodVolume>) -> bool {
    &&& a.len() == b.len()
    &&& forall|i: int|
        0 <= i < a.len() ==> (#[trigger] a[i]).name@ == b[i].name@ && match (a[i].source, b[i].source) {
            (
                VolumeSource::SlayerFs { capacity_bytes: x, config: u },
                VolumeSource::SlayerFs { capacity_bytes: y, config: v },
            ) => x == y && u.deep_view() == v.deep_view(),
            (VolumeSource::Other(x), VolumeSource::Other(y)) => x@ == y@,
            _ => false,
        }
}

/// Lists have equal contents exactly when they are as long as each other and agree at each
/// position.
proof fn lemma_lists_agree<T: DeepView>(a: Vec<T>, b: Vec<T>)
    ensures
        a.deep_view() == b.deep_view() <==> a@.len() == b@.len() && forall|i: int|
            0 <= i < a@.len() ==> (#[trigger] a@[i]).deep_view() == b@[i].deep_view(),
        a.deep_view().len() == a@.len(),
        forall|i: int| 0 <= i < a@.len() ==> #[trigger] a.deep_view()[i] == a@[i].deep_view(),
{
    if a.deep_view() == b.deep_view() {
        assert(a.deep_view().len() == b.deep_view().len());
        assert forall|i: int| 0 <= i < a@.len() implies (#[trigger] a@[i]).deep_view()
            == b@[i].deep_view() by {
            assert(a.deep_view()[i] == b.deep_view()[i]);
        }
    }
    if a@.len() == b@.len() && forall|i: int|
        0 <= i < a@.len() ==> (#[trigger] a@[i]).deep_view() == b@[i].deep_view() {
        assert(a.deep_view() =~= b.deep_view());
    }
}

/// Containers have equal contents exactly when they are described alike.
pub proof fn lemma_same_container(a: ContainerSpec, b: ContainerSpec)
    ensures
        a.deep_view() == b.deep_view() <==> same_container(a, b),
{
    lemma_lists_agree(a.ports, b.ports);
    match (a.env, b.env) {
        (Some(x), Some(y)) => {
            lemma_lists_agree(x, y);
            assert(a.env.deep_view() == Some(x.deep_view()));
            assert(b.env.deep_view() == Some(y.deep_view()));
            if x.deep_view() == y.deep_view() {
                assert forall|i: int| 0 <= i < x@.len() implies (#[trigger] x@[i]).name@ == y@[i].name@
                    && x@[i].value.deep_view() == y@[i].value.deep_view() by {
                    assert(x@[i].deep_view() == y@[i].deep_view());
                }
            }
        },
        _ => {},
    }
    if a.ports.deep_view() == b.ports.deep_view() {
        assert forall|i: int| 0 <= i < a.ports@.len() implies (#[trigger] a.ports@[i]).container_port
            == b.ports@[i].container_port && a.ports@[i].protocol@ == b.ports@[i].protocol@
            && a.ports@[i].host_port == b.ports@[i].host_port && a.ports@[i].host_ip@
            == b.ports@[i].host_ip@ by {
            assert(a.ports@[i].deep_view() == b.ports@[i].deep_view());
        }
    }
}

/// Lists of containers have equal contents exactly when they describe the same containers.
pub proof fn lemma_same_containers(a: Vec<ContainerSpec>, b: Vec<ContainerSpec>)
    ensures
        a.deep_view() == b.deep_view() <==> same_containers(a@, b@),
{
    lemma_lists_agree(a, b);
    assert forall|i: int| 0 <= i < a@.len() implies ((#[trigger] a@[i]).deep_view()
        == b@[i].deep_view() <==> same_container(a@[i], b@[i])) by {
        lemma_same_container(a@[i], b@[i]);
    }
}

/// Lists of volumes have equal contents exactly when they describe the same volumes.
pub proof fn lemma_same_volumes(a: Vec<PodVolume>, b: Vec<PodVolume>)
    ensures
        a.deep_view() == b.deep_view() <==> same_volumes(a@, b@),
{
    lemma_lists_agree(a, b);
    if a.deep_view() == b.deep_view() {
        assert forall|i: int| 0 <= i < a@.len() implies (#[trigger] a@[i]).name@ == b@[i].name@
            && a@[i].source.deep_view() == b@[i].source.deep_view() by {
            assert(a@[i].deep_view() == b@[i].deep_view());
        }
    }
    if same_volumes(a@, b@) {
        assert forall|i: int| 0 <= i < a@.len() implies (#[trigger] a@[i]).deep_view()
            == b@[i].deep_view() by {
            assert(a@[i].name@ == b@[i].name@);
        }
    }
}

/// Whether two pods run the same, in the same place and in the same way, field by field.
pub open spec fn same_spec(a: PodSpec, b: PodSpec) -> bool {
    &&& a.node_name.deep_view() == b.node_name.deep_view()
    &&& same_containers(a.containers@, b.containers@)
    &&& same_containers(a.init_containers@, b.init_containers@)
    &&& a.restart_policy == b.restart_policy
    &&& same_volumes(a.volumes@, b.volumes@)
    &&& a.rest@ == b.rest@
}

/// Specs have equal contents exactly when they are the same, field by field.
pub proof fn lemma_same_spec(a: PodSpec, b: PodSpec)
    ensures
        a.deep_view() == b.deep_view() <==> same_spec(a, b),
{
    lemma_same_containers(a.containers, b.containers);
    lemma_same_containers(a.init_containers, b.init_containers);
    lemma_same_volumes(a.volumes, b.volumes);
}

} // verus!

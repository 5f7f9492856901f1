//! Replica sets, deployments and jobs.
use vstd::prelude::*;
use crate::protocol::labels::LabelMap;
use crate::protocol::meta::{ObjectMeta, ObjectMetaView};
use crate::protocol::pod::{PodTemplateSpec, PodTemplateSpecView};
use crate::protocol::value::Value;

verus! {

/// How a label requirement compares.
#[derive(Debug, Clone, Copy, PartialEq, Eq, Structural)]
pub enum LabelSelectorOperator {
    In,
    NotIn,
    Exists,
    DoesNotExist,
}

/// A requirement on one label.
#[derive(Debug)]
pub struct LabelSelectorRequirement {
    pub key: String,
    pub operator: LabelSelectorOperator,
    pub values: Vec<String>,
}

/// A choice of objects by their labels.
#[derive(Debug)]
pub struct LabelSelector {
    pub match_labels: LabelMap,
    pub match_expressions: Vec<LabelSelectorRequirement>,
}

pub struct LabelSelectorRequirementView {
    pub key: Seq<char>,
    pub operator: LabelSelectorOperator,
    pub values: Seq<Seq<char>>,
}

pub struct LabelSelectorView {
    pub match_labels: Map<Seq<char>, Seq<char>>,
    pub match_expressions: Seq<LabelSelectorRequirementView>,
}

impl DeepView for LabelSelectorRequirement {
    type V = LabelSelectorRequirementView;

    open spec fn deep_view(&self) -> LabelSelectorRequirementView {
        LabelSelectorRequirementView {
            key: self.key@,
            operator: self.operator,
            values: self.values.deep_view(),
        }
    }
}

impl DeepView for LabelSelector {
    type V = LabelSelectorView;

    open spec fn deep_view(&self) -> LabelSelectorView {
        LabelSelectorView {
            match_labels: self.match_labels@,
            match_expressions: self.match_expressions.deep_view(),
        }
    }
}

impl Value for LabelSelectorRequirement {
    fn same(&self, other: &Self) -> (r: bool) {
        self.key.same(&other.key) && self.operator == other.operator && self.values.same(
            &other.values,
        )
    }

    fn copy(&self) -> (r: Self) {
        LabelSelectorRequirement {
            key: self.key.clone(),
            operator: self.operator,
            values: self.values.copy(),
        }
    }
}

impl Value for LabelSelector {
    fn same(&self, other: &Self) -> (r: bool) {
        self.match_labels.same(&other.match_labels) && self.match_expressions.same(
            &other.match_expressions,
        )
    }

    fn copy(&self) -> (r: Self) {
        LabelSelector {
            match_labels: self.match_labels.copy(),
            match_expressions: self.match_expressions.copy(),
        }
    }
}

#[derive(Debug)]
pub struct ReplicaSetSpec {
    pub replicas: i32,
    pub selector: LabelSelector,
    pub template: PodTemplateSpec,
}

#[derive(Debug, Clone, Copy, PartialEq, Eq, Structural)]
pub struct ReplicaSetStatus {
    pub replicas: i32,
    pub fully_labeled_replicas: i32,
    pub ready_replicas: i32,
    pub available_replicas: i32,
}

/// A number of equal pods.
#[derive(Debug)]
pub struct ReplicaSet {
    pub api_version: String,
    pub kind: String,
    pub metadata: ObjectMeta,
    pub spec: ReplicaSetSpec,
    pub status: ReplicaSetStatus,
}

pub struct ReplicaSetSpecView {
    pub replicas: i32,
    pub selector: LabelSelectorView,
    pub template: PodTemplateSpecView,
}

pub struct ReplicaSetView {
    pub api_version: Seq<char>,
    pub kind: Seq<char>,
    pub metadata: ObjectMetaView,
    pub spec: ReplicaSetSpecView,
    pub status: ReplicaSetStatus,
}

impl DeepView for ReplicaSetSpec {
    type V = ReplicaSetSpecView;

    open spec fn deep_view(&self) -> ReplicaSetSpecView {
        ReplicaSetSpecView {
            replicas: self.replicas,
            selector: self.selector.deep_view(),
            template: self.template.deep_view(),
        }
    }
}

impl DeepView for ReplicaSet {
    type V = ReplicaSetView;

    open spec fn deep_view(&self) -> ReplicaSetView {
        ReplicaSetView {
            api_version: self.api_version@,
            kind: self.kind@,
            metadata: self.metadata.deep_view(),
            spec: self.spec.deep_view(),
            status: self.status,
        }
    }
}

impl Value for ReplicaSetSpec {
    fn same(&self, other: &Self) -> (r: bool) {
        self.replicas == other.replicas && self.selector.same(&other.selector)
            && self.template.same(&other.template)
    }

    fn copy(&self) -> (r: Self) {
        ReplicaSetSpec {
            replicas: self.replicas,
            selector: self.selector.copy(),
            template: self.template.copy(),
        }
    }
}

impl Value for ReplicaSet {
    fn same(&self, other: &Self) -> (r: bool) {
        self.api_version.same(&other.api_version) && self.kind.same(&other.kind)
            && self.metadata.same(&other.metadata) && self.spec.same(&other.spec) && self.status
            == other.status
    }

    fn copy(&self) -> (r: Self) {
        ReplicaSet {
            api_version: self.api_version.clone(),
            kind: self.kind.clone(),
            metadata: self.metadata.copy(),
            spec: self.spec.copy(),
            status: self.status,
        }
    }
}

/// A number of pods, or a share of them as it is written.
#[derive(Debug)]
pub enum IntOrPercentage {
    Int(i32),
    Percentage(String),
}

/// The bounds of a rolling update, as they are written.
#[derive(Debug)]
pub struct RollingUpdate {
    pub max_surge: IntOrPercentage,
    pub max_unavailable: IntOrPercentage,
}

/// The bounds of a rolling update, resolved to numbers of pods.
#[derive(Debug, Clone, Copy, PartialEq, Eq, Structural)]
pub struct RollingUpdateStrategy {
    pub max_surge: i32,
    pub max_unavailable: i32,
}

/// How a deployment replaces its pods.
#[derive(Debug)]
pub enum DeploymentStrategy {
    Recreate,
    RollingUpdate { rolling_update: RollingUpdate },
}

pub enum IntOrPercentageView {
    Int(i32),
    Percentage(Seq<char>),
}

pub enum DeploymentStrategyView {
    Recreate,
    RollingUpdate { max_surge: IntOrPercentageView, max_unavailable: IntOrPercentageView },
}

impl DeepView for IntOrPercentage {
    type V = IntOrPercentageView;

    open spec fn deep_view(&self) -> IntOrPercentageView {
        match self {
            IntOrPercentage::Int(n) => IntOrPercentageView::Int(*n),
            IntOrPercentage::Percentage(t) => IntOrPercentageView::Percentage(t@),
        }
    }
}

impl DeepView for DeploymentStrategy {
    type V = DeploymentStrategyView;

    open spec fn deep_view(&self) -> DeploymentStrategyView {
        match self {
            DeploymentStrategy::Recreate => DeploymentStrategyView::Recreate,
            DeploymentStrategy::RollingUpdate { rolling_update } => {
                DeploymentStrategyView::RollingUpdate {
                    max_surge: rolling_update.max_surge.deep_view(),
                    max_unavailable: rolling_update.max_unavailable.deep_view(),
                }
            },
        }
    }
}

impl Value for IntOrPercentage {
    fn same(&self, other: &Self) -> (r: bool) {
        match (self, other) {
            (IntOrPercentage::Int(a), IntOrPercentage::Int(b)) => *a == *b,
            (IntOrPercentage::Percentage(a), IntOrPercentage::Percentage(b)) => a.same(b),
            _ => false,
        }
    }

    fn copy(&self) -> (r: Self) {
        match self {
            IntOrPercentage::Int(n) => IntOrPercentage::Int(*n),
            IntOrPercentage::Percentage(t) => IntOrPercentage::Percentage(t.clone()),
        }
    }
}

impl Value for DeploymentStrategy {
    fn same(&self, other: &Self) -> (r: bool) {
        match (self, other) {
            (DeploymentStrategy::Recreate, DeploymentStrategy::Recreate) => true,
            (
                DeploymentStrategy::RollingUpdate { rolling_update: a },
                DeploymentStrategy::RollingUpdate { rolling_update: b },
            ) => a.max_surge.same(&b.max_surge) && a.max_unavailable.same(&b.max_unavailable),
            _ => false,
        }
    }

    fn copy(&self) -> (r: Self) {
        match self {
            DeploymentStrategy::Recreate => DeploymentStrategy::Recreate,
            DeploymentStrategy::RollingUpdate { rolling_update } => {
                DeploymentStrategy::RollingUpdate {
                    rolling_update: RollingUpdate {
                        max_surge: rolling_update.max_surge.copy(),
                        max_unavailable: rolling_update.max_unavailable.copy(),
                    },
                }
            },
        }
    }
}

impl IntOrPercentage {
    /// The number of pods. `share` is what a share comes to.
    pub fn resolve(&self, share: i32) -> (r: i32)
        ensures
            r == match *self {
                IntOrPercentage::Int(n) => n,
                IntOrPercentage::Percentage(_) => share,
            },
    {
        match self {
            IntOrPercentage::Int(n) => *n,
            IntOrPercentage::Percentage(_) => share,
        }
    }
}

impl RollingUpdate {
    /// The bounds as numbers of pods, with what the two come to where they are shares.
    pub fn resolve(&self, surge_share: i32, unavailable_share: i32) -> (r: RollingUpdateStrategy)
        ensures
            r == (RollingUpdateStrategy {
                max_surge: match self.max_surge {
                    IntOrPercentage::Int(n) => n,
                    IntOrPercentage::Percentage(_) => surge_share,
                },
                max_unavailable: match self.max_unavailable {
                    IntOrPercentage::Int(n) => n,
                    IntOrPercentage::Percentage(_) => unavailable_share,
                },
            }),
    {
        RollingUpdateStrategy {
            max_surge: self.max_surge.resolve(surge_share),
            max_unavailable: self.max_unavailable.resolve(unavailable_share),
        }
    }
}

#[derive(Debug)]
pub struct DeploymentSpec {
    pub replicas: i32,
    pub selector: LabelSelector,
    pub template: PodTemplateSpec,
    pub strategy: DeploymentStrategy,
    pub progress_deadline_seconds: i64,
    pub revision_history_limit: i32,
    /// The other fields, as JSON text; no text where there are none.
    pub rest: String,
}

/// A condition of a deployment. Times are RFC 3339 text.
#[derive(Debug)]
pub struct DeploymentCondition {
    pub condition_type: String,
    pub status: String,
    pub reason: Option<String>,
    pub message: Option<String>,
    pub last_transition_time: String,
    pub last_update_time: Option<String>,
}

#[derive(Debug)]
pub struct DeploymentStatus {
    pub replicas: i32,
    pub updated_replicas: i32,
    pub ready_replicas: i32,
    pub available_replicas: i32,
    pub unavailable_replicas: i32,
    pub observed_generation: Option<i64>,
    pub collision_count: i32,
    pub conditions: Vec<DeploymentCondition>,
}

/// A set of pods that is updated without losing service.
#[derive(Debug)]
pub struct Deployment {
    pub api_version: String,
    pub kind: String,
    pub metadata: ObjectMeta,
    pub spec: DeploymentSpec,
    pub status: DeploymentStatus,
}

pub struct DeploymentSpecView {
    pub replicas: i32,
    pub selector: LabelSelectorView,
    pub template: PodTemplateSpecView,
    pub strategy: DeploymentStrategyView,
    pub progress_deadline_seconds: i64,
    pub revision_history_limit: i32,
    pub rest: Seq<char>,
}

impl DeepView for DeploymentSpec {
    type V = DeploymentSpecView;

    open spec fn deep_view(&self) -> DeploymentSpecView {
        DeploymentSpecView {
            replicas: self.replicas,
            selector: self.selector.deep_view(),
            template: self.template.deep_view(),
            strategy: self.strategy.deep_view(),
            progress_deadline_seconds: self.progress_deadline_seconds,
            revision_history_limit: self.revision_history_limit,
            rest: self.rest@,
        }
    }
}

impl Value for DeploymentSpec {
    fn same(&self, other: &Self) -> (r: bool) {
        self.replicas == other.replicas && self.selector.same(&other.selector)
            && self.template.same(&other.template) && self.strategy.same(&other.strategy)
            && self.progress_deadline_seconds == other.progress_deadline_seconds
            && self.revision_history_limit == other.revision_history_limit && self.rest.same(
            &other.rest,
        )
    }

    fn copy(&self) -> (r: Self) {
        DeploymentSpec {
            replicas: self.replicas,
            selector: self.selector.copy(),
            template: self.template.copy(),
            strategy: self.strategy.copy(),
            progress_deadline_seconds: self.progress_deadline_seconds,
            revision_history_limit: self.revision_history_limit,
            rest: self.rest.clone(),
        }
    }
}

/// Whether the pods of a job have an index each.
#[derive(Debug, Clone, Copy, PartialEq, Eq, Structural)]
pub enum CompletionMode {
    NonIndexed,
    Indexed,
}

#[derive(Debug, Clone, Copy, PartialEq, Eq, Structural)]
pub enum ConditionStatus {
    True,
    False,
    Unknown,
}

#[derive(Debug, Clone, Copy, PartialEq, Eq, Structural)]
pub enum JobConditionType {
    Complete,
    Failed,
}

#[derive(Debug)]
pub struct JobCondition {
    pub condition_type: JobConditionType,
    pub status: ConditionStatus,
    pub last_transition_time: Option<i128>,
    pub reason: Option<String>,
    pub message: Option<String>,
}

#[derive(Debug)]
pub struct JobSpec {
    pub template: PodTemplateSpec,
    pub completions: i32,
    pub parallelism: i32,
    pub backoff_limit: i32,
    pub completion_mode: CompletionMode,
    pub active_deadline_seconds: Option<i64>,
    pub ttl_seconds_after_finished: Option<i64>,
    /// The other fields, as JSON text; no text where there are none.
    pub rest: String,
}

#[derive(Debug)]
pub struct JobStatus {
    pub active: i32,
    pub succeeded: i32,
    pub failed: i32,
    pub start_time: Option<i128>,
    pub completion_time: Option<i128>,
    pub conditions: Vec<JobCondition>,
}

/// Pods that run to completion.
#[derive(Debug)]
pub struct Job {
    pub api_version: String,
    pub kind: String,
    pub metadata: ObjectMeta,
    pub spec: JobSpec,
    pub status: JobStatus,
}

/// Whether two selectors agree in each pair and in each requirement.
pub open spec fn same_selector(a: LabelSelector, b: LabelSelector) -> bool {
    &&& a.match_labels@ == b.match_labels@
    &&& a.match_expressions@.len() == b.match_expressions@.len()
    &&& forall|i: int|
        0 <= i < a.match_expressions@.len() ==> {
            &&& (#[trigger] a.match_expressions@[i]).key@ == b.match_expressions@[i].key@
            &&& a.match_expressions@[i].operator == b.match_expressions@[i].operator
            &&& a.match_expressions@[i].values.deep_view()
                == b.match_expressions@[i].values.deep_view()
        }
}

/// Selectors with the same contents agree in each pair and in each requirement.
pub proof fn law_same_selectors_agree(a: LabelSelector, b: LabelSelector)
    ensures
        a.deep_view() == b.deep_view() ==> same_selector(a, b),
{
    if a.deep_view() == b.deep_view() {
        assert(a.match_expressions.deep_view().len() == a.match_expressions@.len());
        assert(b.match_expressions.deep_view().len() == b.match_expressions@.len());
        assert forall|i: int| 0 <= i < a.match_expressions@.len() implies {
            &&& (#[trigger] a.match_expressions@[i]).key@ == b.match_expressions@[i].key@
            &&& a.match_expressions@[i].operator == b.match_expressions@[i].operator
            &&& a.match_expressions@[i].values.deep_view()
                == b.match_expressions@[i].values.deep_view()
        } by {
            assert(a.match_expressions.deep_view()[i] == a.match_expressions@[i].deep_view());
            assert(b.match_expressions.deep_view()[i] == b.match_expressions@[i].deep_view());
        }
    }
}

/// Specifications of replica sets, and of deployments, with the same contents agree in each field.
pub proof fn law_same_workloads_agree_in_each_field(
    a: ReplicaSetSpec,
    b: ReplicaSetSpec,
    c: DeploymentSpec,
    d: DeploymentSpec,
)
    ensures
        a.deep_view() == b.deep_view() ==> a.replicas == b.replicas && same_selector(
            a.selector,
            b.selector,
        ) && a.template.deep_view() == b.template.deep_view(),
        c.deep_view() == d.deep_view() ==> {
            &&& c.replicas == d.replicas
            &&& same_selector(c.selector, d.selector)
            &&& c.template.deep_view() == d.template.deep_view()
            &&& c.strategy is Recreate <==> d.strategy is Recreate
            &&& c.strategy is RollingUpdate ==> c.strategy->rolling_update.max_surge.deep_view()
                == d.strategy->rolling_update.max_surge.deep_view()
                && c.strategy->rolling_update.max_unavailable.deep_view()
                == d.strategy->rolling_update.max_unavailable.deep_view()
            &&& c.progress_deadline_seconds == d.progress_deadline_seconds
            &&& c.revision_history_limit == d.revision_history_limit
            &&& c.rest@ == d.rest@
        },
{
    law_same_selectors_agree(a.selector, b.selector);
    law_same_selectors_agree(c.selector, d.selector);
}

} // verus!

//! Services and the endpoints behind them.
use vstd::prelude::*;
use crate::protocol::meta::{ObjectMeta, ObjectMetaView};
use crate::protocol::value::Value;
use crate::protocol::workload::{LabelSelector, LabelSelectorView};

verus! {

/// A port of a service.
#[derive(Debug)]
pub struct ServicePort {
    pub name: Option<String>,
    pub port: i32,
    pub target_port: Option<i32>,
    pub protocol: String,
    pub node_port: Option<i32>,
}

#[derive(Debug)]
pub struct ServiceSpec {
    pub service_type: String,
    pub selector: Option<LabelSelector>,
    pub ports: Vec<ServicePort>,
    pub cluster_ip: Option<String>,
}

/// A name and an address for a set of pods.
#[derive(Debug)]
pub struct ServiceTask {
    pub api_version: String,
    pub kind: String,
    pub metadata: ObjectMeta,
    pub spec: ServiceSpec,
}

/// The object behind an endpoint address.
#[derive(Debug)]
pub struct TargetReference {
    pub api_version: String,
    pub kind: String,
    pub namespace: String,
    pub name: String,
    pub uid: u128,
}

#[derive(Debug)]
pub struct EndpointAddress {
    pub ip: String,
    pub node_name: Option<String>,
    pub target_ref: Option<TargetReference>,
}

#[derive(Debug)]
pub struct EndpointPort {
    pub port: i32,
    pub protocol: String,
    pub name: Option<String>,
    pub app_protocol: Option<String>,
}

#[derive(Debug)]
pub struct EndpointSubset {
    pub addresses: Vec<EndpointAddress>,
    pub not_ready_addresses: Vec<EndpointAddress>,
    pub ports: Vec<EndpointPort>,
}

/// The addresses that serve a service.
#[derive(Debug)]
pub struct Endpoint {
    pub api_version: String,
    pub kind: String,
    pub metadata: ObjectMeta,
    pub subsets: Vec<EndpointSubset>,
}

pub struct ServicePortView {
    pub name: Option<Seq<char>>,
    pub port: i32,
    pub target_port: Option<i32>,
    pub protocol: Seq<char>,
    pub node_port: Option<i32>,
}

pub struct ServiceSpecView {
    pub service_type: Seq<char>,
    pub selector: Option<LabelSelectorView>,
    pub ports: Seq<ServicePortView>,
    pub cluster_ip: Option<Seq<char>>,
}

pub struct ServiceTaskView {
    pub api_version: Seq<char>,
    pub kind: Seq<char>,
    pub metadata: ObjectMetaView,
    pub spec: ServiceSpecView,
}

pub struct TargetReferenceView {
    pub api_version: Seq<char>,
    pub kind: Seq<char>,
    pub namespace: Seq<char>,
    pub name: Seq<char>,
    pub uid: u128,
}

pub struct EndpointAddressView {
    pub ip: Seq<char>,
    pub node_name: Option<Seq<char>>,
    pub target_ref: Option<TargetReferenceView>,
}

pub struct EndpointPortView {
    pub port: i32,
    pub protocol: Seq<char>,
    pub name: Option<Seq<char>>,
    pub app_protocol: Option<Seq<char>>,
}

pub struct EndpointSubsetView {
    pub addresses: Seq<EndpointAddressView>,
    pub not_ready_addresses: Seq<EndpointAddressView>,
    pub ports: Seq<EndpointPortView>,
}

pub struct EndpointView {
    pub api_version: Seq<char>,
    pub kind: Seq<char>,
    pub metadata: ObjectMetaView,
    pub subsets: Seq<EndpointSubsetView>,
}

impl DeepView for ServicePort {
    type V = ServicePortView;

    open spec fn deep_view(&self) -> ServicePortView {
        ServicePortView {
            name: self.name.deep_view(),
            port: self.port,
            target_port: self.target_port,
            protocol: self.protocol@,
            node_port: self.node_port,
        }
    }
}

impl DeepView for ServiceSpec {
    type V = ServiceSpecView;

    open spec fn deep_view(&self) -> ServiceSpecView {
        ServiceSpecView {
            service_type: self.service_type@,
            selector: self.selector.deep_view(),
            ports: self.ports.deep_view(),
            cluster_ip: self.cluster_ip.deep_view(),
        }
    }
}

impl DeepView for ServiceTask {
    type V = ServiceTaskView;

    open spec fn deep_view(&self) -> ServiceTaskView {
        ServiceTaskView {
            api_version: self.api_version@,
            kind: self.kind@,
            metadata: self.metadata.deep_view(),
            spec: self.spec.deep_view(),
        }
    }
}

impl DeepView for TargetReference {
    type V = TargetReferenceView;

    open spec fn deep_view(&self) -> TargetReferenceView {
        TargetReferenceView {
            api_version: self.api_version@,
            kind: self.kind@,
            namespace: self.namespace@,
            name: self.name@,
            uid: self.uid,
        }
    }
}

impl DeepView for EndpointAddress {
    type V = EndpointAddressView;

    open spec fn deep_view(&self) -> EndpointAddressView {
        EndpointAddressView {
            ip: self.ip@,
            node_name: self.node_name.deep_view(),
            target_ref: self.target_ref.deep_view(),
        }
    }
}

impl DeepView for EndpointPort {
    type V = EndpointPortView;

    open spec fn deep_view(&self) -> EndpointPortView {
        EndpointPortView {
            port: self.port,
            protocol: self.protocol@,
            name: self.name.deep_view(),
            app_protocol: self.app_protocol.deep_view(),
        }
    }
}

impl DeepView for EndpointSubset {
    type V = EndpointSubsetView;

    open spec fn deep_view(&self) -> EndpointSubsetView {
        EndpointSubsetView {
            addresses: self.addresses.deep_view(),
            not_ready_addresses: self.not_ready_addresses.deep_view(),
            ports: self.ports.deep_view(),
        }
    }
}

impl DeepView for Endpoint {
    type V = EndpointView;

    open spec fn deep_view(&self) -> EndpointView {
        EndpointView {
            api_version: self.api_version@,
            kind: self.kind@,
            metadata: self.metadata.deep_view(),
            subsets: self.subsets.deep_view(),
        }
    }
}

impl Value for ServicePort {
    fn same(&self, other: &Self) -> (r: bool) {
        self.name.same(&other.name) && self.port == other.port && self.target_port.same(
            &other.target_port,
        ) && self.protocol.same(&other.protocol) && self.node_port.same(&other.node_port)
    }

    fn copy(&self) -> (r: Self) {
        ServicePort {
            name: self.name.copy(),
            port: self.port,
            target_port: self.target_port,
            protocol: self.protocol.clone(),
            node_port: self.node_port,
        }
    }
}

impl Value for ServiceSpec {
    fn same(&self, other: &Self) -> (r: bool) {
        self.service_type.same(&other.service_type) && self.selector.same(&other.selector)
            && self.ports.same(&other.ports) && self.cluster_ip.same(&other.cluster_ip)
    }

    fn copy(&self) -> (r: Self) {
        ServiceSpec {
            service_type: self.service_type.clone(),
            selector: self.selector.copy(),
            ports: self.ports.copy(),
            cluster_ip: self.cluster_ip.copy(),
        }
    }
}

impl Value for ServiceTask {
    fn same(&self, other: &Self) -> (r: bool) {
        self.api_version.same(&other.api_version) && self.kind.same(&other.kind)
            && self.metadata.same(&other.metadata) && self.spec.same(&other.spec)
    }

    fn copy(&self) -> (r: Self) {
        ServiceTask {
            api_version: self.api_version.clone(),
            kind: self.kind.clone(),
            metadata: self.metadata.copy(),
            spec: self.spec.copy(),
        }
    }
}

impl Value for TargetReference {
    fn same(&self, other: &Self) -> (r: bool) {
        self.api_version.same(&other.api_version) && self.kind.same(&other.kind)
            && self.namespace.same(&other.namespace) && self.name.same(&other.name) && self.uid
            == other.uid
    }

    fn copy(&self) -> (r: Self) {
        TargetReference {
            api_version: self.api_version.clone(),
            kind: self.kind.clone(),
            namespace: self.namespace.clone(),
            name: self.name.clone(),
            uid: self.uid,
        }
    }
}

impl Value for EndpointAddress {
    fn same(&self, other: &Self) -> (r: bool) {
        self.ip.same(&other.ip) && self.node_name.same(&other.node_name) && self.target_ref.same(
            &other.target_ref,
        )
    }

    fn copy(&self) -> (r: Self) {
        EndpointAddress {
            ip: self.ip.clone(),
            node_name: self.node_name.copy(),
            target_ref: self.target_ref.copy(),
        }
    }
}

impl Value for EndpointPort {
    fn same(&self, other: &Self) -> (r: bool) {
        self.port == other.port && self.protocol.same(&other.protocol) && self.name.same(
            &other.name,
        ) && self.app_protocol.same(&other.app_protocol)
    }

    fn copy(&self) -> (r: Self) {
        EndpointPort {
            port: self.port,
            protocol: self.protocol.clone(),
            name: self.name.copy(),
            app_protocol: self.app_protocol.copy(),
        }
    }
}

impl Value for EndpointSubset {
    fn same(&self, other: &Self) -> (r: bool) {
        self.addresses.same(&other.addresses) && self.not_ready_addresses.same(
            &other.not_ready_addresses,
        ) && self.ports.same(&other.ports)
    }

    fn copy(&self) -> (r: Self) {
        EndpointSubset {
            addresses: self.addresses.copy(),
            not_ready_addresses: self.not_ready_addresses.copy(),
            ports: self.ports.copy(),
        }
    }
}

impl Value for Endpoint {
    fn same(&self, other: &Self) -> (r: bool) {
        self.api_version.same(&other.api_version) && self.kind.same(&other.kind)
            && self.metadata.same(&other.metadata) && self.subsets.same(&other.subsets)
    }

    fn copy(&self) -> (r: Self) {
        Endpoint {
            api_version: self.api_version.clone(),
            kind: self.kind.clone(),
            metadata: self.metadata.copy(),
            subsets: self.subsets.copy(),
        }
    }
}

/// Specifications of services with the same contents agree in each field, and in each field of
/// each port.
pub proof fn law_same_services_agree_in_each_field(a: ServiceSpec, b: ServiceSpec)
    ensures
        a.deep_view() == b.deep_view() ==> {
            &&& a.service_type@ == b.service_type@
            &&& a.selector is Some <==> b.selector is Some
            &&& a.selector is Some ==> a.selector->0.match_labels@ == b.selector->0.match_labels@
                && a.selector->0.match_expressions@.len() == b.selector->0.match_expressions@.len()
            &&& a.cluster_ip is Some <==> b.cluster_ip is Some
            &&& a.cluster_ip is Some ==> a.cluster_ip->0@ == b.cluster_ip->0@
            &&& a.ports@.len() == b.ports@.len()
            &&& forall|i: int|
                0 <= i < a.ports@.len() ==> same_port(#[trigger] a.ports@[i], b.ports@[i])
        },
{
    if a.deep_view() == b.deep_view() {
        assert(a.ports.deep_view().len() == a.ports@.len());
        assert(b.ports.deep_view().len() == b.ports@.len());
        if a.selector is Some && b.selector is Some {
            let x = a.selector->0;
            let y = b.selector->0;
            assert(a.selector.deep_view() == Some(x.deep_view()));
            assert(b.selector.deep_view() == Some(y.deep_view()));
            assert(x.match_expressions.deep_view().len() == x.match_expressions@.len());
            assert(y.match_expressions.deep_view().len() == y.match_expressions@.len());
        }
        assert forall|i: int| 0 <= i < a.ports@.len() implies same_port(
            #[trigger] a.ports@[i],
            b.ports@[i],
        ) by {
            assert(a.ports.deep_view()[i] == a.ports@[i].deep_view());
            assert(b.ports.deep_view()[i] == b.ports@[i].deep_view());
        }
    }
}

/// Whether two ports of services agree in each field.
pub open spec fn same_port(a: ServicePort, b: ServicePort) -> bool {
    &&& a.name is Some <==> b.name is Some
    &&& a.name is Some ==> a.name->0@ == b.name->0@
    &&& a.port == b.port
    &&& a.target_port == b.target_port
    &&& a.protocol@ == b.protocol@
    &&& a.node_port == b.node_port
}

} // verus!

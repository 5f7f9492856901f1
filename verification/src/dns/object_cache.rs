//! The addresses that are known, by namespace and name.
use vstd::prelude::*;
use crate::network::address::Ipv4Addr;
use crate::protocol::dict::PairDict;

verus! {

/// A service and its address.
#[derive(Debug)]
pub struct ServiceRecord {
    pub name: String,
    pub namespace: String,
    pub cluster_ip: Option<Ipv4Addr>,
}

/// A pod, named after its address.
#[derive(Debug)]
pub struct PodRecord {
    pub name: String,
    pub namespace: String,
    pub pod_ip: Option<Ipv4Addr>,
}

/// The records, by namespace and name.
#[derive(Debug)]
pub struct DnsObjectCache {
    pub service_cache: PairDict<ServiceRecord>,
    pub pod_cache: PairDict<PodRecord>,
}

/// The addresses of a zone: the records of its services and of its pods, by namespace and name.
#[verifier::ext_equal]
pub struct DnsObjectCacheView {
    pub services: Map<(Seq<char>, Seq<char>), Option<Ipv4Addr>>,
    pub pods: Map<(Seq<char>, Seq<char>), Option<Ipv4Addr>>,
}

/// The address in a service record.
pub open spec fn service_address() -> spec_fn(ServiceRecord) -> Option<Ipv4Addr> {
    |r: ServiceRecord| r.cluster_ip
}

/// The address in a pod record.
pub open spec fn pod_address() -> spec_fn(PodRecord) -> Option<Ipv4Addr> {
    |r: PodRecord| r.pod_ip
}

impl DnsObjectCache {
    /// Whether each record stands under its own namespace and name.
    pub open spec fn wf(self) -> bool {
        &&& forall|k: (Seq<char>, Seq<char>)| #[trigger]
            self.service_cache@.contains_key(k) ==> self.service_cache@[k].namespace@ == k.0
                && self.service_cache@[k].name@ == k.1
        &&& forall|k: (Seq<char>, Seq<char>)| #[trigger]
            self.pod_cache@.contains_key(k) ==> self.pod_cache@[k].namespace@ == k.0
                && self.pod_cache@[k].name@ == k.1
    }
}

/// The addresses by namespace and name. What else a record holds is told by `wf`.
impl View for DnsObjectCache {
    type V = DnsObjectCacheView;

    open spec fn view(&self) -> DnsObjectCacheView {
        DnsObjectCacheView {
            services: self.service_cache@.map_values(service_address()),
            pods: self.pod_cache@.map_values(pod_address()),
        }
    }
}

impl DnsObjectCacheView {
    /// No records.
    pub open spec fn empty() -> DnsObjectCacheView {
        DnsObjectCacheView { services: Map::empty(), pods: Map::empty() }
    }

    /// The records with one more service.
    pub open spec fn with_service(
        self,
        namespace: Seq<char>,
        name: Seq<char>,
        ip: Option<Ipv4Addr>,
    ) -> DnsObjectCacheView {
        DnsObjectCacheView { services: self.services.insert((namespace, name), ip), ..self }
    }

    /// The records without a service.
    pub open spec fn without_service(
        self,
        namespace: Seq<char>,
        name: Seq<char>,
    ) -> DnsObjectCacheView {
        DnsObjectCacheView { services: self.services.remove((namespace, name)), ..self }
    }

    /// The records with one more pod.
    pub open spec fn with_pod(
        self,
        namespace: Seq<char>,
        name: Seq<char>,
        ip: Option<Ipv4Addr>,
    ) -> DnsObjectCacheView {
        DnsObjectCacheView { pods: self.pods.insert((namespace, name), ip), ..self }
    }

    /// The records without a pod.
    pub open spec fn without_pod(self, namespace: Seq<char>, name: Seq<char>) -> DnsObjectCacheView {
        DnsObjectCacheView { pods: self.pods.remove((namespace, name)), ..self }
    }
}

impl DnsObjectCache {
    /// No records.
    pub fn new() -> (r: Self)
        ensures
            r.wf(),
            r@ == DnsObjectCacheView::empty(),
    {
        let r = DnsObjectCache { service_cache: PairDict::new(), pod_cache: PairDict::new() };
        assert(r@ =~= DnsObjectCacheView::empty());
        r
    }

    /// Adds a service under its namespace and name.
    pub fn insert_service(&mut self, record: ServiceRecord)
        ensures
            old(self).wf() ==> final(self).wf(),
            final(self)@ == old(self)@.with_service(
                record.namespace@,
                record.name@,
                record.cluster_ip,
            ),
    {
        let namespace = record.namespace.clone();
        let name = record.name.clone();
        self.service_cache.insert(namespace, name, record);
        assert(self@ =~= old(self)@.with_service(
            record.namespace@,
            record.name@,
            record.cluster_ip,
        ));
    }

    /// Removes a service.
    pub fn remove_service(&mut self, namespace: &str, name: &str)
        ensures
            old(self).wf() ==> final(self).wf(),
            final(self)@ == old(self)@.without_service(namespace@, name@),
    {
        self.service_cache.remove(namespace, name);
        assert(self@ =~= old(self)@.without_service(namespace@, name@));
    }

    /// Adds a pod under its namespace and name.
    pub fn insert_pod(&mut self, record: PodRecord)
        ensures
            old(self).wf() ==> final(self).wf(),
            final(self)@ == old(self)@.with_pod(record.namespace@, record.name@, record.pod_ip),
    {
        let namespace = record.namespace.clone();
        let name = record.name.clone();
        self.pod_cache.insert(namespace, name, record);
        assert(self@ =~= old(self)@.with_pod(record.namespace@, record.name@, record.pod_ip));
    }

    /// Removes a pod.
    pub fn remove_pod(&mut self, namespace: &str, name: &str)
        ensures
            old(self).wf() ==> final(self).wf(),
            final(self)@ == old(self)@.without_pod(namespace@, name@),
    {
        self.pod_cache.remove(namespace, name);
        assert(self@ =~= old(self)@.without_pod(namespace@, name@));
    }

    /// The address of a service, when its record has one.
    pub fn service_ip(&self, namespace: &str, name: &str) -> (r: Option<Ipv4Addr>)
        ensures
            r == if self@.services.contains_key((namespace@, name@)) {
                self@.services[(namespace@, name@)]
            } else {
                None
            },
    {
        match self.service_cache.get(namespace, name) {
            Some(s) => s.cluster_ip,
            None => None,
        }
    }

    /// The address of a pod, when its record has one.
    pub fn pod_ip(&self, namespace: &str, name: &str) -> (r: Option<Ipv4Addr>)
        ensures
            r == if self@.pods.contains_key((namespace@, name@)) {
                self@.pods[(namespace@, name@)]
            } else {
                None
            },
    {
        match self.pod_cache.get(namespace, name) {
            Some(p) => p.pod_ip,
            None => None,
        }
    }
}

impl Default for DnsObjectCache {
    fn default() -> (r: Self)
        ensures
            r.wf(),
            r@ == DnsObjectCacheView::empty(),
    {
        Self::new()
    }
}

} // verus!

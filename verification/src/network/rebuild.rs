//! Brings the registry of service addresses in line with the stored services.
use vstd::prelude::*;
use crate::network::address;
use crate::network::address::{Ipv4Addr, Ipv4Network};
use crate::network::service_ip;
use crate::network::service_ip::ServiceIpRecord;
use crate::protocol::service::ServiceTask;
use crate::text;
use crate::text::{eq_ignoring_ascii_case, str_eq, trim};

verus! {

/// An address to reserve for a service.
#[derive(Debug)]
pub struct Claim {
    pub ip: Ipv4Addr,
    pub service_namespace: String,
    pub service_name: String,
    /// Whether the address is recorded for another service and has to be released first. When
    /// that fails the address is not reserved.
    pub release_first: bool,
}

/// What brings the registry in line.
#[derive(Debug)]
pub struct RebuildPlan {
    /// Addresses that no service has.
    pub release: Vec<Ipv4Addr>,
    /// Addresses to reserve, after the releases.
    pub reserve: Vec<Claim>,
}

/// The address that a service claims, when it is one of the network.
pub open spec fn claimed(svc: ServiceTask, n: Ipv4Network) -> Option<Ipv4Addr> {
    let s = service_ip::trimmed_ip(svc.spec.cluster_ip);
    if s.len() == 0 || service_ip::is_none_word(s) {
        None
    } else {
        match address::ipv4_of(s) {
            Some(ip) => if n.holds(ip) {
                Some(ip)
            } else {
                None
            },
            None => None,
        }
    }
}

/// The first service, at or after `from`, that claims the address.
pub open spec fn first_claim(
    services: Seq<ServiceTask>,
    n: Ipv4Network,
    ip: Ipv4Addr,
    from: int,
) -> Option<int>
    decreases services.len() - from,
{
    if from < 0 || from >= services.len() {
        None
    } else if claimed(services[from], n) == Some(ip) {
        Some(from)
    } else {
        first_claim(services, n, ip, from + 1)
    }
}

/// The last record, below `n`, of the address.
pub open spec fn last_record(records: Seq<ServiceIpRecord>, ip: Ipv4Addr, n: int) -> Option<int>
    decreases n,
{
    if n <= 0 {
        None
    } else if records[n - 1].ip == ip {
        Some(n - 1)
    } else {
        last_record(records, ip, n - 1)
    }
}

/// The service, by namespace and name, that the address is recorded for.
pub open spec fn recorded_owner(records: Seq<ServiceIpRecord>, ip: Ipv4Addr) -> Option<
    (Seq<char>, Seq<char>),
> {
    match last_record(records, ip, records.len() as int) {
        Some(i) => Some((records[i].service_namespace@, records[i].service_name@)),
        None => None,
    }
}

/// The service, by namespace and name, that is to have the address: the first that claims it.
pub open spec fn rightful_owner(services: Seq<ServiceTask>, n: Ipv4Network, ip: Ipv4Addr) -> Option<
    (Seq<char>, Seq<char>),
> {
    match first_claim(services, n, ip, 0) {
        Some(i) => Some((services[i].metadata.namespace@, services[i].metadata.name@)),
        None => None,
    }
}

/// Whether the plan releases exactly the recorded addresses that no service claims.
pub open spec fn releases_stale(
    plan: RebuildPlan,
    records: Seq<ServiceIpRecord>,
    services: Seq<ServiceTask>,
    n: Ipv4Network,
) -> bool {
    &&& plan.release@.no_duplicates()
    &&& forall|ip: Ipv4Addr| #[trigger]
        plan.release@.contains(ip) <==> recorded_owner(records, ip) is Some && rightful_owner(
            services,
            n,
            ip,
        ) is None
}

/// Whether the claim gives the address to its rightful owner.
pub open spec fn is_claim(
    c: Claim,
    records: Seq<ServiceIpRecord>,
    services: Seq<ServiceTask>,
    n: Ipv4Network,
) -> bool {
    &&& rightful_owner(services, n, c.ip) == Some((c.service_namespace@, c.service_name@))
    &&& recorded_owner(records, c.ip) != rightful_owner(services, n, c.ip)
    &&& c.release_first == (recorded_owner(records, c.ip) is Some)
}

/// Whether the plan reserves exactly the addresses that are not recorded for their rightful
/// owner, each once.
pub open spec fn reserves_missing(
    plan: RebuildPlan,
    records: Seq<ServiceIpRecord>,
    services: Seq<ServiceTask>,
    n: Ipv4Network,
) -> bool {
    &&& forall|i: int|
        0 <= i < plan.reserve@.len() ==> is_claim(#[trigger] plan.reserve@[i], records, services, n)
    &&& forall|i: int, j: int|
        0 <= i < j < plan.reserve@.len() ==> (#[trigger] plan.reserve@[i]).ip != (
        #[trigger] plan.reserve@[j]).ip
    &&& forall|ip: Ipv4Addr| #[trigger]
        rightful_owner(services, n, ip) is Some && recorded_owner(records, ip) != rightful_owner(
            services,
            n,
            ip,
        ) ==> claims_address(plan.reserve@, ip)
}

pub open spec fn claims_address(claims: Seq<Claim>, ip: Ipv4Addr) -> bool {
    exists|i: int| 0 <= i < claims.len() && (#[trigger] claims[i]).ip == ip
}

/// The address that a service claims, when it is one of the network.
pub fn claimed_address(svc: &ServiceTask, n: Ipv4Network) -> (r: Option<Ipv4Addr>)
    requires
        n.wf(),
    ensures
        r == claimed(*svc, n),
{
    let s = match &svc.spec.cluster_ip {
        Some(s) => trim(s.as_str()),
        None => {
            return None;
        },
    };
    if s.as_str().is_empty() || eq_ignoring_ascii_case(s.as_str(), "none") {
        return None;
    }
    match Ipv4Addr::parse(s.as_str()) {
        Some(ip) => if n.contains(ip) {
            Some(ip)
        } else {
            None
        },
        None => None,
    }
}

fn find_claim(
    claims: &Vec<Option<Ipv4Addr>>,
    services: &Vec<ServiceTask>,
    Ghost(n): Ghost<Ipv4Network>,
    ip: Ipv4Addr,
) -> (r: Option<usize>)
    requires
        claims@.len() == services@.len(),
        forall|k: int| 0 <= k < claims@.len() ==> #[trigger] claims@[k] == claimed(services@[k], n),
    ensures
        match r {
            Some(i) => first_claim(services@, n, ip, 0) == Some(i as int) && i < services@.len(),
            None => first_claim(services@, n, ip, 0) is None,
        },
{
    let mut i: usize = 0;
    while i < claims.len()
        invariant
            i <= claims@.len(),
            claims@.len() == services@.len(),
            forall|k: int|
                0 <= k < claims@.len() ==> #[trigger] claims@[k] == claimed(services@[k], n),
            first_claim(services@, n, ip, 0) == first_claim(services@, n, ip, i as int),
        decreases claims@.len() - i,
    {
        assert(claims@[i as int] == claimed(services@[i as int], n));
        if let Some(a) = claims[i] {
            if a == ip {
                return Some(i);
            }
        }
        i = i + 1;
    }
    None
}

fn find_record(records: &Vec<ServiceIpRecord>, ip: Ipv4Addr) -> (r: Option<usize>)
    ensures
        match r {
            Some(i) => last_record(records@, ip, records@.len() as int) == Some(i as int) && i
                < records@.len() && records@[i as int].ip == ip,
            None => last_record(records@, ip, records@.len() as int) is None,
        },
{
    let mut i: usize = records.len();
    while i > 0
        invariant
            i <= records@.len(),
            last_record(records@, ip, records@.len() as int) == last_record(records@, ip, i as int),
        decreases i,
    {
        i = i - 1;
        if records[i].ip == ip {
            return Some(i);
        }
    }
    None
}

proof fn lemma_last_record(records: Seq<ServiceIpRecord>, i: int, n: int)
    requires
        0 <= i < n <= records.len(),
    ensures
        last_record(records, records[i].ip, n) matches Some(k) && i <= k < n && records[k].ip
            == records[i].ip,
    decreases n,
{
    if records[n - 1].ip != records[i].ip {
        lemma_last_record(records, i, n - 1);
    }
}

proof fn lemma_record_in_range(records: Seq<ServiceIpRecord>, ip: Ipv4Addr, n: int)
    requires
        n <= records.len(),
    ensures
        last_record(records, ip, n) matches Some(k) ==> 0 <= k < n && records[k].ip == ip,
    decreases n,
{
    if n > 0 && records[n - 1].ip != ip {
        lemma_record_in_range(records, ip, n - 1);
    }
}

proof fn lemma_first_claim(services: Seq<ServiceTask>, n: Ipv4Network, ip: Ipv4Addr, from: int)
    requires
        0 <= from,
    ensures
        first_claim(services, n, ip, from) matches Some(k) ==> from <= k < services.len() && claimed(
            services[k],
            n,
        ) == Some(ip),
    decreases services.len() - from,
{
    if from < services.len() && claimed(services[from], n) != Some(ip) {
        lemma_first_claim(services, n, ip, from + 1);
    }
}

/// What brings the registry in line with the stored services. Of several services that claim
/// an address the first keeps it; claims that are no address of the network are passed over.
pub fn rebuild_service_ip_registry_from_services(
    records: &Vec<ServiceIpRecord>,
    services: &Vec<ServiceTask>,
    service_cidr: Ipv4Network,
) -> (plan: RebuildPlan)
    requires
        service_cidr.wf(),
    ensures
        releases_stale(plan, records@, services@, service_cidr),
        reserves_missing(plan, records@, services@, service_cidr),
{
    let n = service_cidr;
    let mut claims: Vec<Option<Ipv4Addr>> = Vec::new();
    for i in 0..services.len()
        invariant
            n.wf(),
            claims@.len() == i,
            forall|k: int| 0 <= k < i ==> #[trigger] claims@[k] == claimed(services@[k], n),
    {
        claims.push(claimed_address(&services[i], n));
    }
    let mut release: Vec<Ipv4Addr> = Vec::new();
    proof {
        assert forall|ip: Ipv4Addr| #[trigger]
            last_record(records@, ip, records@.len() as int) is Some implies last_record(
            records@,
            ip,
            records@.len() as int,
        )->0 >= 0 by {
            lemma_record_in_range(records@, ip, records@.len() as int);
        }
    }
    for i in 0..records.len()
        invariant
            claims@.len() == services@.len(),
            forall|k: int|
                0 <= k < claims@.len() ==> #[trigger] claims@[k] == claimed(services@[k], n),
            release@.no_duplicates(),
            forall|k: int|
                0 <= k < release@.len() ==> (last_record(
                    records@,
                    #[trigger] release@[k],
                    records@.len() as int,
                ) matches Some(j) && j < i) && first_claim(services@, n, release@[k], 0) is None,
            forall|ip: Ipv4Addr|
                (#[trigger] last_record(records@, ip, records@.len() as int) matches Some(j) && j
                    < i) && first_claim(services@, n, ip, 0) is None ==> release@.contains(ip),
    {
        let ip: Ipv4Addr = records[i].ip;
        let last = find_record(records, ip);
        proof {
            lemma_last_record(records@, i as int, records@.len() as int);
        }
        let ghost before = release@;
        if let Some(j) = last {
            if j == i && find_claim(&claims, services, Ghost(n), ip).is_none() {
                release.push(ip);
                proof {
                    assert(!before.contains(ip)) by {
                        if before.contains(ip) {
                            let k = choose|k: int| 0 <= k < before.len() && before[k] == ip;
                            assert(last_record(records@, before[k], records@.len() as int) == Some(
                                i as int,
                            ));
                        }
                    }
                    assert(release@[before.len() as int] == ip);
                    assert forall|a: Ipv4Addr| before.contains(a) implies release@.contains(a) by {
                        let k = choose|k: int| 0 <= k < before.len() && before[k] == a;
                        assert(release@[k] == a);
                    }
                }
            }
        }
        proof {
            assert forall|a: Ipv4Addr|
                (#[trigger] last_record(records@, a, records@.len() as int) matches Some(j) && j <= i)
                    && first_claim(services@, n, a, 0) is None implies release@.contains(a) by {
                lemma_record_in_range(records@, a, records@.len() as int);
                let j = last_record(records@, a, records@.len() as int)->0;
                if j < i {
                    assert(before.contains(a));
                }
            }
        }
    }
    let mut reserve: Vec<Claim> = Vec::new();
    proof {
        assert forall|ip: Ipv4Addr| #[trigger]
            first_claim(services@, n, ip, 0) is Some implies first_claim(services@, n, ip, 0)->0
            >= 0 by {
            lemma_first_claim(services@, n, ip, 0);
        }
    }
    for i in 0..services.len()
        invariant
            claims@.len() == services@.len(),
            forall|k: int|
                0 <= k < claims@.len() ==> #[trigger] claims@[k] == claimed(services@[k], n),
            forall|k: int|
                0 <= k < reserve@.len() ==> is_claim(
                    #[trigger] reserve@[k],
                    records@,
                    services@,
                    n,
                ) && (first_claim(services@, n, reserve@[k].ip, 0) matches Some(j) && j < i),
            forall|k: int, l: int|
                0 <= k < l < reserve@.len() ==> (#[trigger] reserve@[k]).ip != (
                #[trigger] reserve@[l]).ip,
            forall|ip: Ipv4Addr|
                (#[trigger] first_claim(services@, n, ip, 0) matches Some(j) && j < i)
                    && recorded_owner(records@, ip) != rightful_owner(services@, n, ip)
                    ==> claims_address(reserve@, ip),
    {
        let ghost before = reserve@;
        assert(claims@[i as int] == claimed(services@[i as int], n));
        if let Some(ip) = claims[i] {
            let first = find_claim(&claims, services, Ghost(n), ip);
            if let Some(j) = first {
                if j == i {
                    let ns = services[i].metadata.namespace.clone();
                    let name = services[i].metadata.name.clone();
                    let mut kept = false;
                    let mut recorded = false;
                    if let Some(k) = find_record(records, ip) {
                        recorded = true;
                        kept = str_eq(records[k].service_namespace.as_str(), ns.as_str())
                            && str_eq(records[k].service_name.as_str(), name.as_str());
                    }
                    assert(kept == (recorded_owner(records@, ip) == rightful_owner(
                        services@,
                        n,
                        ip,
                    )));
                    if !kept {
                        reserve.push(
                            Claim {
                                ip,
                                service_namespace: ns,
                                service_name: name,
                                release_first: recorded,
                            },
                        );
                        proof {
                            assert(reserve@[before.len() as int].ip == ip);
                            assert forall|k: int| 0 <= k < before.len() implies (
                            #[trigger] before[k]).ip != ip by {
                                assert(first_claim(services@, n, before[k].ip, 0) matches Some(j)
                                    && j < i);
                            }
                        }
                    }
                }
            }
        }
        proof {
            assert forall|a: Ipv4Addr|
                (#[trigger] first_claim(services@, n, a, 0) matches Some(j) && j <= i)
                    && recorded_owner(records@, a) != rightful_owner(services@, n, a)
                    implies claims_address(reserve@, a) by {
                lemma_first_claim(services@, n, a, 0);
                let j = first_claim(services@, n, a, 0)->0;
                if j < i {
                    assert(claims_address(before, a));
                    let k = choose|k: int| 0 <= k < before.len() && (#[trigger] before[k]).ip == a;
                    assert(reserve@[k].ip == a);
                } else {
                    assert(claimed(services@[i as int], n) == Some(a));
                    assert(reserve@.len() == before.len() + 1);
                    assert(reserve@[before.len() as int].ip == a);
                }
            }
        }
    }
    let plan = RebuildPlan { release, reserve };
    proof {
        assert forall|ip: Ipv4Addr| #[trigger] plan.release@.contains(ip) implies recorded_owner(
            records@,
            ip,
        ) is Some && rightful_owner(services@, n, ip) is None by {
            let k = choose|k: int| 0 <= k < plan.release@.len() && plan.release@[k] == ip;
            assert(last_record(records@, plan.release@[k], records@.len() as int) is Some);
        }
        assert forall|ip: Ipv4Addr|
            recorded_owner(records@, ip) is Some && rightful_owner(services@, n, ip) is None
                implies #[trigger] plan.release@.contains(ip) by {
            lemma_record_in_range(records@, ip, records@.len() as int);
        }
        assert forall|ip: Ipv4Addr| #[trigger]
            rightful_owner(services@, n, ip) is Some && recorded_owner(records@, ip)
                != rightful_owner(services@, n, ip) implies claims_address(plan.reserve@, ip) by {
            lemma_first_claim(services@, n, ip, 0);
        }
    }
    plan
}

/// The owner of an address after the plan was carried out.
pub open spec fn owner_after(plan: RebuildPlan, records: Seq<ServiceIpRecord>, ip: Ipv4Addr) -> Option<
    (Seq<char>, Seq<char>),
> {
    if claims_address(plan.reserve@, ip) {
        let c = plan.reserve@[choose|i: int|
            0 <= i < plan.reserve@.len() && (#[trigger] plan.reserve@[i]).ip == ip];
        Some((c.service_namespace@, c.service_name@))
    } else if plan.release@.contains(ip) {
        None
    } else {
        recorded_owner(records, ip)
    }
}

/// After the plan was carried out, every address is recorded for its rightful owner, and no
/// address without one is recorded.
pub proof fn law_rebuilt_registry_is_in_line(
    plan: RebuildPlan,
    records: Seq<ServiceIpRecord>,
    services: Seq<ServiceTask>,
    n: Ipv4Network,
    ip: Ipv4Addr,
)
    requires
        releases_stale(plan, records, services, n),
        reserves_missing(plan, records, services, n),
    ensures
        owner_after(plan, records, ip) == rightful_owner(services, n, ip),
{
    if claims_address(plan.reserve@, ip) {
        let i = choose|i: int|
            0 <= i < plan.reserve@.len() && (#[trigger] plan.reserve@[i]).ip == ip;
        assert(is_claim(plan.reserve@[i], records, services, n));
    } else {
        assert(plan.release@.contains(ip) <==> recorded_owner(records, ip) is Some
            && rightful_owner(services, n, ip) is None);
    }
}

/// Whether the address is that of the service: the one that it names, where it names one and not
/// the word for none, if it lies in the network.
pub open spec fn has_as_address(svc: ServiceTask, n: Ipv4Network, ip: Ipv4Addr) -> bool {
    &&& svc.spec.cluster_ip matches Some(s) && text::trimmed(s@).len() > 0
        && !service_ip::says_none(text::trimmed(s@)) && address::ipv4_of(text::trimmed(s@)) == Some(
        ip,
    )
    &&& n.first() <= ip.bits <= n.last()
}

/// Whether one of the services has the address.
pub open spec fn is_in_use(services: Seq<ServiceTask>, n: Ipv4Network, ip: Ipv4Addr) -> bool {
    exists|i: int| 0 <= i < services.len() && has_as_address(#[trigger] services[i], n, ip)
}

/// Whether the address is recorded.
pub open spec fn is_recorded(records: Seq<ServiceIpRecord>, ip: Ipv4Addr) -> bool {
    exists|i: int| 0 <= i < records.len() && (#[trigger] records[i]).ip == ip
}

/// Whether the first service with the address has the name.
pub open spec fn first_user_is(
    services: Seq<ServiceTask>,
    n: Ipv4Network,
    ip: Ipv4Addr,
    namespace: Seq<char>,
    name: Seq<char>,
) -> bool {
    exists|i: int|
        {
            &&& 0 <= i < services.len()
            &&& has_as_address(#[trigger] services[i], n, ip)
            &&& services[i].metadata.namespace@ == namespace
            &&& services[i].metadata.name@ == name
            &&& forall|k: int| 0 <= k < i ==> !has_as_address(#[trigger] services[k], n, ip)
        }
}

proof fn lemma_claimed(svc: ServiceTask, n: Ipv4Network, ip: Ipv4Addr)
    ensures
        claimed(svc, n) == Some(ip) <==> has_as_address(svc, n, ip),
{
    assert("none"@ =~= text::lowered("none"@)) by {
        reveal_strlit("none");
    }
}

proof fn lemma_first_user(services: Seq<ServiceTask>, n: Ipv4Network, ip: Ipv4Addr, from: int)
    requires
        0 <= from <= services.len(),
    ensures
        match first_claim(services, n, ip, from) {
            Some(i) => from <= i < services.len() && has_as_address(services[i], n, ip) && forall|k: int|
                from <= k < i ==> !has_as_address(#[trigger] services[k], n, ip),
            None => forall|k: int|
                from <= k < services.len() ==> !has_as_address(#[trigger] services[k], n, ip),
        },
    decreases services.len() - from,
{
    if from < services.len() {
        lemma_claimed(services[from], n, ip);
        if claimed(services[from], n) != Some(ip) {
            lemma_first_user(services, n, ip, from + 1);
        }
    }
}

proof fn lemma_record_found(records: Seq<ServiceIpRecord>, ip: Ipv4Addr, n: int)
    requires
        0 <= n <= records.len(),
    ensures
        match last_record(records, ip, n) {
            Some(i) => 0 <= i < n && records[i].ip == ip,
            None => forall|k: int| 0 <= k < n ==> (#[trigger] records[k]).ip != ip,
        },
    decreases n,
{
    if n > 0 && records[n - 1].ip != ip {
        lemma_record_found(records, ip, n - 1);
    }
}

/// The service of an address is the one that names it; one that names none, the word for none, no
/// address, or one outside of the network has none.
pub proof fn law_service_has_the_address_it_names(
    svc: ServiceTask,
    n: Ipv4Network,
    r: Option<Ipv4Addr>,
    ip: Ipv4Addr,
)
    requires
        call_ensures(claimed_address, (&svc, n), r),
        n.wf(),
    ensures
        r == Some(ip) <==> has_as_address(svc, n, ip),
{
    lemma_claimed(svc, n, ip);
}

/// Rebuilding the registry releases just the recorded addresses that no service has. It reserves
/// addresses for the first service that has them, each once, and every address in use that is not
/// recorded; one that is recorded for another service is released before.
pub proof fn law_registry_follows_the_services(
    records: Vec<ServiceIpRecord>,
    services: Vec<ServiceTask>,
    n: Ipv4Network,
    plan: RebuildPlan,
)
    requires
        call_ensures(rebuild_service_ip_registry_from_services, (&records, &services, n), plan),
        n.wf(),
    ensures
        forall|ip: Ipv4Addr| #[trigger]
            plan.release@.contains(ip) <==> is_recorded(records@, ip) && !is_in_use(
                services@,
                n,
                ip,
            ),
        forall|i: int|
            0 <= i < plan.reserve@.len() ==> first_user_is(
                services@,
                n,
                (#[trigger] plan.reserve@[i]).ip,
                plan.reserve@[i].service_namespace@,
                plan.reserve@[i].service_name@,
            ),
        forall|i: int|
            0 <= i < plan.reserve@.len() ==> ((#[trigger] plan.reserve@[i]).release_first
                <==> is_recorded(records@, plan.reserve@[i].ip)),
        forall|i: int, j: int|
            0 <= i < j < plan.reserve@.len() ==> (#[trigger] plan.reserve@[i]).ip != (
            #[trigger] plan.reserve@[j]).ip,
        forall|ip: Ipv4Addr| #[trigger]
            is_in_use(services@, n, ip) && !is_recorded(records@, ip) ==> exists|i: int|
                0 <= i < plan.reserve@.len() && (#[trigger] plan.reserve@[i]).ip == ip,
        forall|ip: Ipv4Addr, k: int|
            #![trigger is_in_use(services@, n, ip), records@[k]]
            0 <= k < records@.len() && records@[k].ip == ip && is_in_use(services@, n, ip)
                && !first_user_is(
                services@,
                n,
                ip,
                records@[k].service_namespace@,
                records@[k].service_name@,
            ) && (forall|m: int| k < m < records@.len() ==> (#[trigger] records@[m]).ip != ip)
                ==> claims_address(plan.reserve@, ip),
{
    let len = records@.len() as int;
    assert forall|ip: Ipv4Addr| (recorded_owner(records@, ip) is Some) == #[trigger] is_recorded(
        records@,
        ip,
    ) by {
        lemma_record_found(records@, ip, len);
        if let Some(i) = last_record(records@, ip, len) {
            assert(records@[i].ip == ip);
        }
    }
    assert forall|ip: Ipv4Addr| (rightful_owner(services@, n, ip) is Some) == #[trigger] is_in_use(
        services@,
        n,
        ip,
    ) by {
        lemma_first_user(services@, n, ip, 0);
        if let Some(i) = first_claim(services@, n, ip, 0) {
            assert(has_as_address(services@[i], n, ip));
        }
    }
    assert forall|ip: Ipv4Addr| #[trigger] plan.release@.contains(ip) <==> is_recorded(records@, ip)
        && !is_in_use(services@, n, ip) by {
        assert(is_recorded(records@, ip) == (recorded_owner(records@, ip) is Some));
        assert(is_in_use(services@, n, ip) == (rightful_owner(services@, n, ip) is Some));
    }
    assert forall|i: int| 0 <= i < plan.reserve@.len() implies first_user_is(
        services@,
        n,
        (#[trigger] plan.reserve@[i]).ip,
        plan.reserve@[i].service_namespace@,
        plan.reserve@[i].service_name@,
    ) && (plan.reserve@[i].release_first <==> is_recorded(records@, plan.reserve@[i].ip)) by {
        let c = plan.reserve@[i];
        assert(is_claim(c, records@, services@, n));
        lemma_first_user(services@, n, c.ip, 0);
        let k = first_claim(services@, n, c.ip, 0)->0;
        assert(has_as_address(services@[k], n, c.ip));
    }
    assert forall|ip: Ipv4Addr| #[trigger]
        is_in_use(services@, n, ip) && !is_recorded(records@, ip) implies exists|i: int|
        0 <= i < plan.reserve@.len() && (#[trigger] plan.reserve@[i]).ip == ip by {
        assert(rightful_owner(services@, n, ip) is Some);
        assert(recorded_owner(records@, ip) is None);
        assert(claims_address(plan.reserve@, ip));
    }
    assert forall|ip: Ipv4Addr, k: int|
        #![trigger is_in_use(services@, n, ip), records@[k]]
        0 <= k < records@.len() && records@[k].ip == ip && is_in_use(services@, n, ip)
            && !first_user_is(
            services@,
            n,
            ip,
            records@[k].service_namespace@,
            records@[k].service_name@,
        ) && (forall|m: int| k < m < records@.len() ==> (#[trigger] records@[m]).ip != ip) implies claims_address(
    plan.reserve@, ip) by {
        lemma_record_is_last(records@, ip, len, k);
        lemma_first_user(services@, n, ip, 0);
        let i = first_claim(services@, n, ip, 0)->0;
        assert(has_as_address(services@[i], n, ip));
        assert(rightful_owner(services@, n, ip) is Some);
        if recorded_owner(records@, ip) == rightful_owner(services@, n, ip) {
            assert(services@[i].metadata.namespace@ == records@[k].service_namespace@);
            assert(first_user_is(
                services@,
                n,
                ip,
                records@[k].service_namespace@,
                records@[k].service_name@,
            ));
        }
    }
}

proof fn lemma_record_is_last(records: Seq<ServiceIpRecord>, ip: Ipv4Addr, n: int, k: int)
    requires
        0 <= k < n <= records.len(),
        records[k].ip == ip,
        forall|m: int| k < m < records.len() ==> (#[trigger] records[m]).ip != ip,
    ensures
        last_record(records, ip, n) == Some(k),
    decreases n,
{
    if k < n - 1 {
        assert(records[n - 1].ip != ip);
        lemma_record_is_last(records, ip, n - 1, k);
    }
}

} // verus!

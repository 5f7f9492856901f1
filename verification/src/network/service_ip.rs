//! Unified Service IP management: registry, allocator, and validation.
//!
//! Decides which address a service gets. Reading and writing the registry is left to the
//! caller, which performs each step and hands back its outcome.
use std::collections::HashSet;
use vstd::prelude::*;
use crate::controllers::manager;
use crate::network::address;
use crate::network::address::{Ipv4Addr, Ipv4Network};
use crate::protocol::service::ServiceSpec;
use crate::text;
use crate::text::{concat2, concat3, eq_ignoring_ascii_case, opt_eq, str_eq, to_decimal, trim};

verus! {

/// Represents the state of an allocated Service IP in the registry.
#[derive(Debug)]
pub struct ServiceIpRecord {
    /// The IP address that was allocated
    pub ip: Ipv4Addr,
    /// Service namespace that owns this IP
    pub service_namespace: String,
    /// Service name that owns this IP
    pub service_name: String,
    /// Allocation timestamp (RFC3339 format)
    pub allocated_at: String,
}

/// Why a registry operation failed.
#[derive(Debug)]
pub enum ServiceIpError {
    AllocationFailed(String),
    AlreadyAllocated { ip: Ipv4Addr },
    XlineError(String),
    Utf8Error(String),
    Other(String),
}

/// The text of an error.
pub open spec fn error_text(e: ServiceIpError) -> Seq<char> {
    match e {
        ServiceIpError::AllocationFailed(m) => "service IP allocation failed: "@ + m@,
        ServiceIpError::AlreadyAllocated { ip } => "service IP already allocated: "@
            + address::ipv4_text(ip),
        ServiceIpError::XlineError(m) => "xline error: "@ + m@,
        ServiceIpError::Utf8Error(m) => "UTF-8 decode error: "@ + m@,
        ServiceIpError::Other(m) => m@,
    }
}

impl ServiceIpError {
    /// The text of the error.
    pub fn message(&self) -> (r: String)
        ensures
            r@ == error_text(*self),
    {
        match self {
            ServiceIpError::AllocationFailed(m) => concat2(
                "service IP allocation failed: ",
                m.as_str(),
            ),
            ServiceIpError::AlreadyAllocated { ip } => concat2(
                "service IP already allocated: ",
                ip.to_text().as_str(),
            ),
            ServiceIpError::XlineError(m) => concat2("xline error: ", m.as_str()),
            ServiceIpError::Utf8Error(m) => concat2("UTF-8 decode error: ", m.as_str()),
            ServiceIpError::Other(m) => m.clone(),
        }
    }
}

/// The registry of addresses: one key for each allocated address.
pub struct ServiceIpRegistry;

impl ServiceIpRegistry {
    /// Generate the Xline key for a Service IP record
    pub fn make_key(ip: Ipv4Addr) -> (r: String)
        ensures
            r@ == "/registry/service-ips/"@ + address::ipv4_text(ip),
    {
        concat2("/registry/service-ips/", ip.to_text().as_str())
    }

    /// The outcome of an allocation whose transaction was decided: it succeeds only if the
    /// address was not allocated before.
    pub fn allocated(ip: Ipv4Addr, succeeded: bool) -> (r: Result<(), ServiceIpError>)
        ensures
            r == if succeeded {
                Ok(())
            } else {
                Err::<(), ServiceIpError>(ServiceIpError::AlreadyAllocated { ip })
            },
    {
        if succeeded {
            Ok(())
        } else {
            Err(ServiceIpError::AlreadyAllocated { ip })
        }
    }
}

/// Two addresses have two keys.
pub proof fn law_keys_are_distinct(a: Ipv4Addr, b: Ipv4Addr)
    requires
        "/registry/service-ips/"@ + address::ipv4_text(a) == "/registry/service-ips/"@
            + address::ipv4_text(b),
    ensures
        a == b,
{
    let p = "/registry/service-ips/"@;
    assert((p + address::ipv4_text(a)).skip(p.len() as int) =~= address::ipv4_text(a));
    assert((p + address::ipv4_text(b)).skip(p.len() as int) =~= address::ipv4_text(b));
    address::law_address_text_is_read_back(a);
    address::law_address_text_is_read_back(b);
}

/// Whether the address is one that no service gets: the network's own, its first host, its
/// broadcast address, and .254 in a network of 256 addresses.
pub open spec fn reserved(a: Ipv4Addr, n: Ipv4Network) -> bool {
    ||| a.bits == n.first()
    ||| a.bits == n.last()
    ||| a.bits == n.first() + 1
    ||| n.prefix == 24 && a.bits % 256 == 254
}

/// Reserved IP addresses in an IPv4 subnet that cannot be allocated.
/// Based on Kubernetes and RFC standards:
/// - .0: network address
/// - first host of the whole ServiceCIDR: gateway/API server
/// - .254: typically reserved for gateways
/// - .255: broadcast address
pub fn is_reserved_service_ip(ip: Ipv4Addr, subnet: Ipv4Network) -> (r: bool)
    requires
        subnet.wf(),
    ensures
        r == reserved(ip, subnet),
{
    let network = subnet.network();
    if ip == network {
        return true;
    }
    if ip == subnet.broadcast() {
        return true;
    }
    if ip.bits > 0 && ip.bits - 1 == network.bits {
        return true;
    }
    if subnet.prefix == 24 && ip.bits % 256 == 254 {
        return true;
    }
    false
}

/// Whether a service can get the address.
pub open spec fn usable(n: Ipv4Network, a: Ipv4Addr) -> bool {
    n.first() < a.bits < n.last() && !reserved(a, n)
}

pub open spec fn all_usable(n: Ipv4Network, s: Seq<Ipv4Addr>) -> bool {
    forall|i: int| 0 <= i < s.len() ==> usable(n, #[trigger] s[i])
}

/// Whether the network has addresses besides its own and the broadcast address.
pub open spec fn has_hosts(n: Ipv4Network) -> bool {
    n.last() > n.first() + 1
}

/// The most candidates that one attempt tries.
pub const MAX_CANDIDATES: usize = 256;

/// The most numbers that are drawn for one attempt.
pub const MAX_SAMPLE_ATTEMPTS: usize = 4096;

/// The most addresses that the linear probe tries.
pub const MAX_PROBES: u32 = 65_536;

/// The first wait after conflicts, in milliseconds.
pub const INITIAL_BACKOFF_MS: u64 = 10;

/// The longest wait after conflicts, in milliseconds.
pub const MAX_BACKOFF_MS: u64 = 200;

/// Whether addresses of the network can be looked for: there is an address after its first one.
pub open spec fn searchable(n: Ipv4Network) -> bool {
    n.wf() && n.first() < u32::MAX
}

/// The candidates that come of drawn numbers: each number once, without the reserved
/// addresses, up to the most.
pub open spec fn picked(n: Ipv4Network, drawn: Seq<u32>) -> Seq<Ipv4Addr>
    decreases drawn.len(),
{
    if drawn.len() == 0 {
        Seq::empty()
    } else {
        let before = picked(n, drawn.drop_last());
        let a = Ipv4Addr { bits: drawn.last() };
        if before.len() >= MAX_CANDIDATES || drawn.drop_last().contains(drawn.last()) || reserved(
            a,
            n,
        ) {
            before
        } else {
            before.push(a)
        }
    }
}

/// Whether the numbers can have been drawn for one attempt.
pub open spec fn can_be_drawn(n: Ipv4Network, drawn: Seq<u32>) -> bool {
    &&& drawn.len() <= MAX_SAMPLE_ATTEMPTS
    &&& forall|i: int| 0 <= i < drawn.len() ==> n.first() < #[trigger] drawn[i] < n.last()
    &&& drawn.len() == MAX_SAMPLE_ATTEMPTS || picked(n, drawn).len() >= MAX_CANDIDATES
}

/// `Rng::random_range` on the generator of `rand::rng`: a number of the range, whichever
/// comes.
#[verifier::external_body]
fn random_between(low: u32, high: u32) -> (r: u32)
    requires
        low < high,
    ensures
        low <= r < high,
{
    rand::Rng::random_range(&mut rand::rng(), low..high)
}

/// The numbers drawn so far and the candidates that came of them.
pub struct Sampling {
    seen: HashSet<u32>,
    candidates: Vec<Ipv4Addr>,
    drawn: Ghost<Seq<u32>>,
}

impl Sampling {
    /// The numbers drawn so far.
    pub closed spec fn drawn(&self) -> Seq<u32> {
        self.drawn@
    }

    /// The candidates so far.
    pub closed spec fn found(&self) -> Seq<Ipv4Addr> {
        self.candidates@
    }

    /// Whether the candidates are those of the numbers drawn.
    pub closed spec fn wf(&self, n: Ipv4Network) -> bool {
        &&& self.candidates@ == picked(n, self.drawn@)
        &&& self.seen@.finite()
        &&& forall|v: u32| #[trigger] self.seen@.contains(v) <==> self.drawn@.contains(v)
    }

    /// Nothing drawn yet.
    pub fn new(n: Ipv4Network) -> (r: Sampling)
        ensures
            r.wf(n),
            r.drawn() == Seq::<u32>::empty(),
            r.found() == Seq::<Ipv4Addr>::empty(),
    {
        Sampling { seen: HashSet::new(), candidates: Vec::new(), drawn: Ghost(Seq::empty()) }
    }

    /// Takes one more number.
    pub fn offer(&mut self, n: Ipv4Network, v: u32)
        requires
            old(self).wf(n),
            n.wf(),
            old(self).found().len() < MAX_CANDIDATES,
        ensures
            final(self).wf(n),
            final(self).drawn() == old(self).drawn().push(v),
            final(self).found() == picked(n, final(self).drawn()),
    {
        let ghost before = self.drawn@;
        let fresh = self.seen.insert(v);
        proof {
            self.drawn = Ghost(before.push(v));
            assert(before.push(v).drop_last() =~= before);
            assert forall|x: u32| #[trigger]
                self.seen@.contains(x) <==> before.push(v).contains(x) by {
                if before.contains(x) {
                    let i = choose|i: int| 0 <= i < before.len() && before[i] == x;
                    assert(before.push(v)[i] == x);
                }
                if x == v {
                    assert(before.push(v)[before.len() as int] == x);
                }
            }
        }
        let a = Ipv4Addr { bits: v };
        if fresh && !is_reserved_service_ip(a, n) {
            self.candidates.push(a);
        }
    }

    /// The number of candidates so far.
    pub fn len(&self) -> (r: usize)
        ensures
            r == self.found().len(),
    {
        self.candidates.len()
    }

    /// The candidates.
    pub fn finish(self) -> (r: Vec<Ipv4Addr>)
        ensures
            r@ == self.found(),
    {
        self.candidates
    }
}

/// Candidates are usable, and none occurs twice.
pub proof fn law_candidates_are_usable(n: Ipv4Network, drawn: Seq<u32>)
    requires
        forall|i: int| 0 <= i < drawn.len() ==> n.first() < #[trigger] drawn[i] < n.last(),
    ensures
        all_usable(n, picked(n, drawn)),
        picked(n, drawn).no_duplicates(),
        picked(n, drawn).len() <= MAX_CANDIDATES,
        forall|i: int|
            0 <= i < picked(n, drawn).len() ==> drawn.contains((#[trigger] picked(n, drawn)[i]).bits),
    decreases drawn.len(),
{
    if drawn.len() > 0 {
        let d = drawn.drop_last();
        law_candidates_are_usable(n, d);
        let p = picked(n, d);
        let a = Ipv4Addr { bits: drawn.last() };
        assert forall|i: int| 0 <= i < picked(n, drawn).len() implies drawn.contains(
            (#[trigger] picked(n, drawn)[i]).bits,
        ) by {
            if i < p.len() {
                let k = choose|k: int| 0 <= k < d.len() && d[k] == p[i].bits;
                assert(d.contains(p[i].bits));
                assert(drawn[k] == p[i].bits);
            } else {
                assert(drawn[drawn.len() - 1] == a.bits);
            }
        }
        assert(picked(n, drawn).no_duplicates()) by {
            if picked(n, drawn).len() > p.len() {
                assert forall|i: int| 0 <= i < p.len() implies p[i] != a by {
                    assert(d.contains(p[i].bits));
                }
            }
        }
        assert(n.first() < drawn[drawn.len() - 1] < n.last());
    }
}

/// What an attempt to reserve an address came to.
#[derive(Debug)]
pub enum Reservation {
    Reserved,
    AlreadyAllocated,
    Failed(ServiceIpError),
}

/// What an allocation does next.
#[derive(Debug)]
pub enum AllocationStep {
    /// Draw candidates.
    Draw,
    /// Reserve the address in the registry.
    Reserve(Ipv4Addr),
    /// Wait about this number of milliseconds.
    Wait(u64),
    /// Draw the start of the linear probe.
    Probe,
    /// The address is allocated.
    Allocated(Ipv4Addr),
    /// The allocation fails with the message.
    Failed(String),
}

/// An allocation in progress.
#[derive(Debug)]
pub struct Allocation {
    /// The number of attempts that ended in conflicts.
    pub attempt: usize,
    /// The addresses to try.
    pub queue: Vec<Ipv4Addr>,
    /// The number of them that were tried.
    pub at: usize,
    /// Whether they come of the linear probe.
    pub probing: bool,
}

/// Allocates Service ClusterIPs with exponential backoff retry on conflicts.
#[derive(Debug, Clone, Copy)]
pub struct ServiceIpAllocator {
    pub service_cidr: Ipv4Network,
    /// Maximum retry attempts before giving up
    pub max_retries: usize,
}

/// The wait after an attempt that ended in conflicts.
pub open spec fn backoff(attempt: nat) -> int {
    let exponent = if attempt < 6 {
        attempt
    } else {
        6
    };
    let ms = INITIAL_BACKOFF_MS * manager::power_of_two(exponent);
    if ms < MAX_BACKOFF_MS {
        ms
    } else {
        MAX_BACKOFF_MS as int
    }
}

/// The wait after an attempt that ended in conflicts, before a random factor.
pub fn backoff_ms(attempt: usize) -> (r: u64)
    ensures
        r == backoff(attempt as nat),
        INITIAL_BACKOFF_MS <= r <= MAX_BACKOFF_MS,
{
    proof {
        reveal_with_fuel(manager::power_of_two, 7);
    }
    if attempt == 0 {
        10
    } else if attempt == 1 {
        20
    } else if attempt == 2 {
        40
    } else if attempt == 3 {
        80
    } else if attempt == 4 {
        160
    } else {
        200
    }
}

/// The message of an allocation that tried everything.
pub open spec fn attempts_message(max_retries: usize) -> Seq<char> {
    "failed to allocate Service IP after "@ + text::decimal(max_retries as nat) + " attempts"@
}

/// The message of an allocation whose registry failed.
pub open spec fn failed_message(e: ServiceIpError) -> Seq<char> {
    "Service IP allocation failed: "@ + error_text(e)
}

/// The number of addresses that the linear probe tries.
pub open spec fn probe_limit(n: Ipv4Network) -> int {
    let hosts = n.last() - n.first() - 1;
    if hosts <= MAX_PROBES {
        hosts
    } else {
        MAX_PROBES as int
    }
}

/// The address at a place of the linear probe.
pub open spec fn probe_at(n: Ipv4Network, start: int, i: int) -> Ipv4Addr {
    Ipv4Addr { bits: (n.first() + 1 + (start + i) % probe_limit(n)) as u32 }
}

pub open spec fn not_reserved(n: Ipv4Network) -> spec_fn(Ipv4Addr) -> bool {
    |a: Ipv4Addr| !reserved(a, n)
}

/// The addresses that the linear probe tries, in order.
pub open spec fn probe_order(n: Ipv4Network, start: int) -> Seq<Ipv4Addr> {
    Seq::new(probe_limit(n) as nat, |i: int| probe_at(n, start, i)).filter(not_reserved(n))
}

/// Whether an attempt can come to these candidates, or to this error.
pub open spec fn can_be_candidates(n: Ipv4Network, r: Result<Vec<Ipv4Addr>, String>) -> bool {
    match r {
        Ok(c) => has_hosts(n) && c@.len() > 0 && exists|drawn: Seq<u32>|
            can_be_drawn(n, drawn) && c@ == #[trigger] picked(n, drawn),
        Err(m) => if has_hosts(n) {
            &&& m@ == "no available IPs in CIDR "@ + address::ipv4_network_text(n)
            &&& exists|drawn: Seq<u32>|
                can_be_drawn(n, drawn) && #[trigger] picked(n, drawn).len() == 0
        } else {
            m@ == "no usable host IPs in CIDR "@ + address::ipv4_network_text(n)
        },
    }
}

/// Whether the linear probe can try these addresses, in order.
pub open spec fn can_be_probed(n: Ipv4Network, order: Seq<Ipv4Addr>) -> bool {
    if has_hosts(n) {
        exists|start: int| 0 <= start < probe_limit(n) && order == #[trigger] probe_order(n, start)
    } else {
        order.len() == 0
    }
}

/// How an allocation goes on with candidates.
pub open spec fn goes_on_with(
    al: ServiceIpAllocator,
    before: Allocation,
    candidates: Result<Vec<Ipv4Addr>, String>,
    after: Allocation,
    step: AllocationStep,
) -> bool {
    match candidates {
        Err(m) => step == AllocationStep::Failed(m) && after == before,
        Ok(c) => {
            &&& after == (Allocation { queue: c, at: 0, ..before })
            &&& if c@.len() == 0 {
                fails_with(
                    step,
                    "Service IP pool exhausted (no available IPs in "@ + address::ipv4_network_text(
                        al.service_cidr,
                    ) + ")"@,
                )
            } else {
                step == AllocationStep::Reserve(c@[0])
            }
        },
    }
}

/// How an allocation goes on with the addresses of the linear probe.
pub open spec fn goes_on_probing(
    al: ServiceIpAllocator,
    before: Allocation,
    order: Vec<Ipv4Addr>,
    after: Allocation,
    step: AllocationStep,
) -> bool {
    &&& after == (Allocation { queue: order, at: 0, probing: true, ..before })
    &&& tries_next(al, after, step)
}

/// How an allocation goes on after an attempt to reserve an address.
pub open spec fn goes_on_after(
    al: ServiceIpAllocator,
    before: Allocation,
    outcome: Reservation,
    after: Allocation,
    step: AllocationStep,
) -> bool {
    match outcome {
        Reservation::Reserved => {
            &&& step == AllocationStep::Allocated(before.queue@[before.at as int])
            &&& after == before
        },
        Reservation::Failed(e) => {
            &&& fails_with(step, failed_message(e))
            &&& after == before
        },
        Reservation::AlreadyAllocated => {
            let last = before.at + 1 == before.queue@.len();
            if last && !before.probing {
                &&& step matches AllocationStep::Wait(ms) && ms == backoff(before.attempt as nat)
                &&& after == (Allocation {
                    attempt: (before.attempt + 1) as usize,
                    at: (before.at + 1) as usize,
                    ..before
                })
            } else {
                &&& tries_next(al, after, step)
                &&& after == (Allocation { at: (before.at + 1) as usize, ..before })
            }
        },
    }
}

/// The step after what is random in one was drawn.
pub open spec fn settles(
    al: ServiceIpAllocator,
    before: Allocation,
    step: AllocationStep,
    after: Allocation,
    r: AllocationStep,
) -> bool {
    match step {
        AllocationStep::Draw => exists|c: Result<Vec<Ipv4Addr>, String>|
            can_be_candidates(al.service_cidr, c) && #[trigger] goes_on_with(
                al,
                before,
                c,
                after,
                r,
            ),
        AllocationStep::Probe => exists|order: Vec<Ipv4Addr>|
            can_be_probed(al.service_cidr, order@) && #[trigger] goes_on_probing(
                al,
                before,
                order,
                after,
                r,
            ),
        _ => r == step && after == before,
    }
}

/// Whether an address of the queue is being tried.
pub open spec fn is_trying(al: ServiceIpAllocator, st: Allocation) -> bool {
    st.at < st.queue@.len() && (st.attempt < al.max_retries || st.probing)
}

/// Whether the step is the failure with the message.
pub open spec fn fails_with(step: AllocationStep, m: Seq<char>) -> bool {
    step matches AllocationStep::Failed(t) && t@ == m
}

/// What follows the trial of the first address of a queue.
pub open spec fn tries_next(al: ServiceIpAllocator, st: Allocation, step: AllocationStep) -> bool {
    if st.at < st.queue@.len() {
        step == AllocationStep::Reserve(st.queue@[st.at as int])
    } else {
        fails_with(step, attempts_message(al.max_retries))
    }
}

impl ServiceIpAllocator {
    /// Create a new ServiceIpAllocator.
    pub fn new(service_cidr: Ipv4Network, max_retries: usize) -> (r: Self)
        ensures
            r.service_cidr == service_cidr,
            r.max_retries == max_retries,
    {
        ServiceIpAllocator { service_cidr, max_retries }
    }

    /// Generate candidate Service IPs for allocation.
    ///
    /// This samples from the full CIDR range to avoid hot-spotting on the first few IPs.
    pub fn generate_candidate_ips(&self) -> (r: Result<Vec<Ipv4Addr>, String>)
        requires
            searchable(self.service_cidr),
        ensures
            can_be_candidates(self.service_cidr, r),
    {
        let n = self.service_cidr;
        proof {
            address::lemma_first4(n);
        }
        let low: u32 = n.network().bits;
        let high: u32 = n.broadcast().bits;
        if high <= low || high - low <= 1 {
            return Err(concat2("no usable host IPs in CIDR ", n.to_text().as_str()));
        }
        let mut s = Sampling::new(n);
        let mut i: usize = 0;
        while i < MAX_SAMPLE_ATTEMPTS && s.len() < MAX_CANDIDATES
            invariant
                n == self.service_cidr,
                n.wf(),
                low == n.first(),
                high == n.last(),
                low + 1 < high,
                s.wf(n),
                s.found() == picked(n, s.drawn()),
                s.drawn().len() == i,
                i <= MAX_SAMPLE_ATTEMPTS,
                forall|k: int| 0 <= k < i ==> n.first() < #[trigger] s.drawn()[k] < n.last(),
            decreases MAX_SAMPLE_ATTEMPTS - i,
        {
            let v = random_between(low + 1, high);
            s.offer(n, v);
            i = i + 1;
        }
        let ghost drawn = s.drawn();
        assert(can_be_drawn(n, drawn));
        let c = s.finish();
        if c.len() == 0 {
            assert(picked(n, drawn).len() == 0);
            return Err(concat2("no available IPs in CIDR ", n.to_text().as_str()));
        }
        assert(c@ == picked(n, drawn));
        Ok(c)
    }

    /// The addresses that the linear probe tries, from a start.
    ///
    /// For subnets up to /16, these are all usable hosts.
    /// For larger subnets, probing is capped for latency protection.
    pub fn probe_addresses(&self, start: u32) -> (r: Vec<Ipv4Addr>)
        requires
            searchable(self.service_cidr),
            has_hosts(self.service_cidr) ==> start < probe_limit(self.service_cidr),
        ensures
            r@ == if has_hosts(self.service_cidr) {
                probe_order(self.service_cidr, start as int)
            } else {
                Seq::empty()
            },
    {
        let n = self.service_cidr;
        proof {
            address::lemma_first4(n);
        }
        let low: u32 = n.network().bits;
        let high: u32 = n.broadcast().bits;
        if high <= low || high - low <= 1 {
            return Vec::new();
        }
        let hosts: u32 = high - low - 1;
        let limit: u32 = if hosts <= MAX_PROBES {
            hosts
        } else {
            MAX_PROBES
        };
        let ghost all = Seq::new(limit as nat, |i: int| probe_at(n, start as int, i));
        let mut out: Vec<Ipv4Addr> = Vec::new();
        proof {
            crate::seqs::lemma_filter_none(all, not_reserved(n));
        }
        for i in 0..limit
            invariant
                n == self.service_cidr,
                n.wf(),
                low == n.first(),
                high == n.last(),
                low + 1 < high,
                limit == probe_limit(n),
                0 < limit <= MAX_PROBES,
                limit <= high - low - 1,
                start < limit,
                all == Seq::new(limit as nat, |i: int| probe_at(n, start as int, i)),
                out@ == all.take(i as int).filter(not_reserved(n)),
        {
            let k: u32 = (start + i) % limit;
            let a = Ipv4Addr { bits: low + 1 + k };
            proof {
                crate::seqs::lemma_filter_take(all, not_reserved(n), i as int);
                assert(all[i as int] == a);
            }
            if !is_reserved_service_ip(a, n) {
                out.push(a);
            }
        }
        assert(all.take(limit as int) =~= all);
        out
    }

    /// The addresses that the linear probe tries, from a random start.
    pub fn random_probe(&self) -> (r: Vec<Ipv4Addr>)
        requires
            searchable(self.service_cidr),
        ensures
            can_be_probed(self.service_cidr, r@),
    {
        let n = self.service_cidr;
        proof {
            address::lemma_first4(n);
        }
        let low: u32 = n.network().bits;
        let high: u32 = n.broadcast().bits;
        if high <= low || high - low <= 1 {
            return Vec::new();
        }
        let hosts: u32 = high - low - 1;
        let limit: u32 = if hosts <= MAX_PROBES {
            hosts
        } else {
            MAX_PROBES
        };
        let start = random_between(0, limit);
        let r = self.probe_addresses(start);
        assert(r@ == probe_order(n, start as int));
        r
    }

    /// Allocate a Service IP from the CIDR range: begins the allocation.
    pub fn allocate(&self) -> (r: (Allocation, AllocationStep))
        ensures
            r.0.attempt == 0,
            r.0.queue@.len() == 0,
            r.0.at == 0,
            !r.0.probing,
            r.1 == if self.max_retries > 0 {
                AllocationStep::Draw
            } else {
                AllocationStep::Probe
            },
    {
        let st = Allocation { attempt: 0, queue: Vec::new(), at: 0, probing: false };
        if self.max_retries > 0 {
            (st, AllocationStep::Draw)
        } else {
            (st, AllocationStep::Probe)
        }
    }

    /// Goes on with the candidates that were drawn.
    pub fn drawn(&self, st: &mut Allocation, candidates: Result<Vec<Ipv4Addr>, String>) -> (step:
        AllocationStep)
        ensures
            goes_on_with(*self, *old(st), candidates, *final(st), step),
    {
        match candidates {
            Err(m) => AllocationStep::Failed(m),
            Ok(c) => {
                st.queue = c;
                st.at = 0;
                if st.queue.len() == 0 {
                    AllocationStep::Failed(
                        concat3(
                            "Service IP pool exhausted (no available IPs in ",
                            self.service_cidr.to_text().as_str(),
                            ")",
                        ),
                    )
                } else {
                    AllocationStep::Reserve(st.queue[0])
                }
            },
        }
    }

    /// Goes on with the addresses of the linear probe.
    pub fn probed(&self, st: &mut Allocation, order: Vec<Ipv4Addr>) -> (step: AllocationStep)
        ensures
            goes_on_probing(*self, *old(st), order, *final(st), step),
    {
        st.queue = order;
        st.at = 0;
        st.probing = true;
        self.try_next(st)
    }

    fn try_next(&self, st: &Allocation) -> (step: AllocationStep)
        ensures
            tries_next(*self, *st, step),
    {
        if st.at < st.queue.len() {
            AllocationStep::Reserve(st.queue[st.at])
        } else {
            let s = to_decimal(self.max_retries as u64);
            AllocationStep::Failed(
                concat3("failed to allocate Service IP after ", s.as_str(), " attempts"),
            )
        }
    }

    /// Goes on after an attempt to reserve an address: with the next one when it was taken.
    /// When all candidates were, it waits; when all of the linear probe were, it fails.
    pub fn reserved(&self, st: &mut Allocation, outcome: Reservation) -> (step: AllocationStep)
        requires
            is_trying(*self, *old(st)),
        ensures
            goes_on_after(*self, *old(st), outcome, *final(st), step),
    {
        match outcome {
            Reservation::Reserved => AllocationStep::Allocated(st.queue[st.at]),
            Reservation::Failed(e) => AllocationStep::Failed(
                concat2("Service IP allocation failed: ", e.message().as_str()),
            ),
            Reservation::AlreadyAllocated => {
                let n: usize = st.queue.len();
                st.at = st.at + 1;
                if st.at == n && !st.probing {
                    let ms = backoff_ms(st.attempt);
                    st.attempt = st.attempt + 1;
                    AllocationStep::Wait(ms)
                } else {
                    self.try_next(st)
                }
            },
        }
    }

    /// Goes on after a wait: with new candidates, or with the linear probe after the last
    /// attempt.
    pub fn waited(&self, st: &Allocation) -> (step: AllocationStep)
        ensures
            step == if st.attempt < self.max_retries {
                AllocationStep::Draw
            } else {
                AllocationStep::Probe
            },
    {
        if st.attempt < self.max_retries {
            AllocationStep::Draw
        } else {
            AllocationStep::Probe
        }
    }

    /// Draws what is random in a step.
    pub fn settle(&self, st: &mut Allocation, step: AllocationStep) -> (r: AllocationStep)
        requires
            searchable(self.service_cidr),
        ensures
            settles(*self, *old(st), step, *final(st), r),
    {
        match step {
            AllocationStep::Draw => {
                let c = self.generate_candidate_ips();
                let ghost g = c;
                let r = self.drawn(st, c);
                assert(goes_on_with(*self, *old(st), g, *st, r));
                r
            },
            AllocationStep::Probe => {
                let order = self.random_probe();
                let ghost g = order;
                let r = self.probed(st, order);
                assert(goes_on_probing(*self, *old(st), g, *st, r));
                r
            },
            _ => step,
        }
    }
}

/// For subnets of up to 65536 hosts the linear probe tries every usable host, whatever its
/// start.
pub proof fn law_probe_tries_every_host(n: Ipv4Network, start: int, a: Ipv4Addr)
    requires
        n.wf(),
        has_hosts(n),
        n.last() - n.first() - 1 <= MAX_PROBES,
        0 <= start < probe_limit(n),
        usable(n, a),
    ensures
        probe_order(n, start).contains(a),
{
    let limit = probe_limit(n);
    let all = Seq::new(limit as nat, |i: int| probe_at(n, start, i));
    let k = a.bits - n.first() - 1;
    let i = if k >= start {
        k - start
    } else {
        k - start + limit
    };
    assert(0 <= i < limit);
    assert((start + i) % limit == k) by (nonlinear_arith)
        requires
            0 <= k < limit,
            0 <= start < limit,
            i == (if k >= start { k - start } else { k - start + limit }),
    ;
    address::lemma_first4(n);
    assert(all[i] == a);
    assert(not_reserved(n)(a));
    crate::seqs::lemma_filter_members(all, not_reserved(n));
    assert(all.contains(a));
}

/// The linear probe tries usable addresses only.
pub proof fn law_probed_addresses_are_usable(n: Ipv4Network, start: int)
    requires
        n.wf(),
        has_hosts(n),
        0 <= start < probe_limit(n),
    ensures
        all_usable(n, probe_order(n, start)),
{
    let limit = probe_limit(n);
    let all = Seq::new(limit as nat, |i: int| probe_at(n, start, i));
    address::lemma_first4(n);
    crate::seqs::lemma_filter_members(all, not_reserved(n));
    let f = probe_order(n, start);
    assert forall|j: int| 0 <= j < f.len() implies usable(n, #[trigger] f[j]) by {
        assert(f.contains(f[j]));
        assert(not_reserved(n)(f[j]));
        let i = choose|i: int| 0 <= i < all.len() && all[i] == f[j];
        assert(all.contains(f[j]));
        assert(all[i] == probe_at(n, start, i));
        vstd::arithmetic::div_mod::lemma_mod_bound(start + i, limit);
    }
}

/// The message for an address that is no IPv4 address.
pub open spec fn format_message(s: Seq<char>) -> Seq<char> {
    "invalid cluster_ip format: "@ + s
}

/// What the validation of a service's address comes to.
#[derive(Debug)]
pub enum ClusterIpStep {
    /// Nothing is to be done.
    Keep,
    /// An address is to be allocated.
    Allocate,
    /// The record of the address is to be looked up.
    LookUp(Ipv4Addr),
    /// The address is to be reserved.
    Reserve(Ipv4Addr),
    /// The service is refused with the message.
    Refuse(String),
}

pub open spec fn refuses_with(step: ClusterIpStep, m: Seq<char>) -> bool {
    step matches ClusterIpStep::Refuse(t) && t@ == m
}

/// Whether the text is the word that stands for no address.
pub open spec fn is_none_word(s: Seq<char>) -> bool {
    text::lowered(s) == text::lowered("none"@)
}

/// The text of an address without the space around it; no text when there is none.
pub open spec fn trimmed_ip(o: Option<String>) -> Seq<char> {
    match o {
        Some(s) => text::trimmed(s@),
        None => Seq::empty(),
    }
}

/// The validation of a service's address, up to the registry.
pub open spec fn is_cluster_ip_step(spec: ServiceSpec, cidr: Option<Ipv4Network>, step: ClusterIpStep) -> bool {
    if spec.service_type@ != "ClusterIP"@ {
        step is Keep
    } else if spec.cluster_ip matches Some(s) && is_none_word(s@) {
        step is Keep
    } else {
        match cidr {
            None => refuses_with(step, "ServiceCIDR not configured in network config"@),
            Some(n) => if trimmed_ip(spec.cluster_ip).len() == 0 {
                step is Allocate
            } else {
                match address::ipv4_of(trimmed_ip(spec.cluster_ip)) {
                    None => refuses_with(step, format_message(trimmed_ip(spec.cluster_ip))),
                    Some(ip) => if !n.holds(ip) {
                        refuses_with(
                            step,
                            "cluster_ip "@ + address::ipv4_text(ip)
                                + " is outside Service CIDR range ("@ + address::ipv4_network_text(n)
                                + ")"@,
                        )
                    } else if reserved(ip, n) {
                        refuses_with(
                            step,
                            "cluster_ip "@ + address::ipv4_text(ip)
                                + " is a reserved address in Service CIDR ("@
                                + address::ipv4_network_text(n) + ")"@,
                        )
                    } else {
                        step == ClusterIpStep::LookUp(ip)
                    },
                }
            },
        }
    }
}

fn trimmed_of(o: &Option<String>) -> (r: String)
    ensures
        r@ == trimmed_ip(*o),
{
    match o {
        Some(s) => trim(s.as_str()),
        None => String::new(),
    }
}

/// Validates a Service spec for ClusterIP assignment, up to the registry: what is to be done
/// about its address.
pub fn validate_cluster_ip(spec: &ServiceSpec, service_cidr: Option<Ipv4Network>) -> (step:
    ClusterIpStep)
    requires
        service_cidr matches Some(n) ==> n.wf(),
    ensures
        is_cluster_ip_step(*spec, service_cidr, step),
{
    if !str_eq(spec.service_type.as_str(), "ClusterIP") {
        return ClusterIpStep::Keep;
    }
    if let Some(s) = &spec.cluster_ip {
        if eq_ignoring_ascii_case(s.as_str(), "none") {
            return ClusterIpStep::Keep;
        }
    }
    let n = match service_cidr {
        Some(n) => n,
        None => {
            return ClusterIpStep::Refuse("ServiceCIDR not configured in network config".to_owned());
        },
    };
    let ip_str = trimmed_of(&spec.cluster_ip);
    if ip_str.as_str().is_empty() {
        return ClusterIpStep::Allocate;
    }
    match Ipv4Addr::parse(ip_str.as_str()) {
        None => ClusterIpStep::Refuse(concat2("invalid cluster_ip format: ", ip_str.as_str())),
        Some(ip) => {
            if !n.contains(ip) {
                let mut m = concat3(
                    "cluster_ip ",
                    ip.to_text().as_str(),
                    " is outside Service CIDR range (",
                );
                m.append(n.to_text().as_str());
                m.append(")");
                return ClusterIpStep::Refuse(m);
            }
            if is_reserved_service_ip(ip, n) {
                let mut m = concat3(
                    "cluster_ip ",
                    ip.to_text().as_str(),
                    " is a reserved address in Service CIDR (",
                );
                m.append(n.to_text().as_str());
                m.append(")");
                return ClusterIpStep::Refuse(m);
            }
            ClusterIpStep::LookUp(ip)
        },
    }
}

/// If already allocated, allow only when owned by the same service; reserve it otherwise.
pub fn check_record(
    service_namespace: &str,
    service_name: &str,
    ip: Ipv4Addr,
    record: &Option<ServiceIpRecord>,
) -> (step: ClusterIpStep)
    ensures
        match *record {
            None => step == ClusterIpStep::Reserve(ip),
            Some(r) => if r.service_namespace@ == service_namespace@ && r.service_name@
                == service_name@ {
                step is Keep
            } else {
                refuses_with(
                    step,
                    "cluster_ip "@ + address::ipv4_text(ip)
                        + " is already allocated to another service ("@ + r.service_namespace@
                        + "/"@ + r.service_name@ + ")"@,
                )
            },
        },
{
    match record {
        None => ClusterIpStep::Reserve(ip),
        Some(r) => {
            if str_eq(r.service_namespace.as_str(), service_namespace) && str_eq(
                r.service_name.as_str(),
                service_name,
            ) {
                ClusterIpStep::Keep
            } else {
                let mut m = concat3(
                    "cluster_ip ",
                    ip.to_text().as_str(),
                    " is already allocated to another service (",
                );
                m.append(r.service_namespace.as_str());
                m.append("/");
                m.append(r.service_name.as_str());
                m.append(")");
                ClusterIpStep::Refuse(m)
            }
        },
    }
}

/// Gives a service the address that was allocated for it.
pub fn assign_cluster_ip(spec: &mut ServiceSpec, ip: Ipv4Addr)
    ensures
        *final(spec) == (ServiceSpec { cluster_ip: final(spec).cluster_ip, ..*old(spec) }),
        final(spec).cluster_ip matches Some(s) && s@ == address::ipv4_text(ip),
{
    spec.cluster_ip = Some(ip.to_text());
}

/// An address in the form in which two are compared.
pub open spec fn normalized_ip(o: Option<String>) -> Option<Seq<char>> {
    let s = trimmed_ip(o);
    if s.len() == 0 {
        None
    } else if is_none_word(s) {
        Some("None"@)
    } else {
        Some(s)
    }
}

fn normalize_cluster_ip(o: &Option<String>) -> (r: Option<String>)
    ensures
        text::opt_text(r) == normalized_ip(*o),
{
    let s = trimmed_of(o);
    if s.as_str().is_empty() {
        None
    } else if eq_ignoring_ascii_case(s.as_str(), "none") {
        Some("None".to_owned())
    } else {
        Some(s)
    }
}

/// The form in which `Debug` writes an optional text.
pub uninterp spec fn debug_text(o: Option<Seq<char>>) -> Seq<char>;

/// `Debug` of `Option<String>`: what is written depends on the value alone.
#[verifier::external_body]
fn to_debug(o: &Option<String>) -> (r: String)
    ensures
        r@ == debug_text(text::opt_text(*o)),
{
    format!("{:?}", o)
}

/// Whether the change of a service would change the address that it has.
pub open spec fn changes_cluster_ip(old: ServiceSpec, new: ServiceSpec) -> bool {
    &&& old.service_type@ == "ClusterIP"@
    &&& new.service_type@ == "ClusterIP"@
    &&& normalized_ip(old.cluster_ip) is Some
    &&& normalized_ip(old.cluster_ip) != normalized_ip(new.cluster_ip)
}

/// Validates that cluster_ip cannot be modified (Kubernetes immutability rule).
pub fn validate_cluster_ip_immutability(
    service_name: &str,
    old_spec: &ServiceSpec,
    new_spec: &ServiceSpec,
) -> (r: Result<(), String>)
    ensures
        match r {
            Ok(_) => !changes_cluster_ip(*old_spec, *new_spec),
            Err(m) => changes_cluster_ip(*old_spec, *new_spec) && m@ == "cluster_ip for service "@
                + service_name@ + " cannot be modified: old="@ + debug_text(
                text::opt_text(old_spec.cluster_ip),
            ) + ", new="@ + debug_text(text::opt_text(new_spec.cluster_ip)),
        },
{
    let old_ip = normalize_cluster_ip(&old_spec.cluster_ip);
    let new_ip = normalize_cluster_ip(&new_spec.cluster_ip);
    if str_eq(old_spec.service_type.as_str(), "ClusterIP") && str_eq(
        new_spec.service_type.as_str(),
        "ClusterIP",
    ) && old_ip.is_some() && !opt_eq(&old_ip, &new_ip) {
        let mut m = concat3(
            "cluster_ip for service ",
            service_name,
            " cannot be modified: old=",
        );
        m.append(to_debug(&old_spec.cluster_ip).as_str());
        m.append(", new=");
        m.append(to_debug(&new_spec.cluster_ip).as_str());
        return Err(m);
    }
    Ok(())
}

/// The address to release when a service is deleted: only a real allocatable IP is released.
pub fn deallocate_cluster_ip(spec: &ServiceSpec) -> (r: Result<Option<Ipv4Addr>, String>)
    ensures
        ({
            let s = trimmed_ip(spec.cluster_ip);
            if s.len() == 0 || is_none_word(s) {
                r == Ok::<Option<Ipv4Addr>, String>(None)
            } else {
                match (r, address::ipv4_of(s)) {
                    (Ok(o), a) => a is Some && o == a,
                    (Err(m), a) => a is None && m@
                        == "invalid cluster_ip format during deletion: "@ + s,
                }
            }
        }),
{
    let s = trimmed_of(&spec.cluster_ip);
    if s.as_str().is_empty() || eq_ignoring_ascii_case(s.as_str(), "none") {
        return Ok(None);
    }
    match Ipv4Addr::parse(s.as_str()) {
        Some(ip) => Ok(Some(ip)),
        None => Err(concat2("invalid cluster_ip format during deletion: ", s.as_str())),
    }
}

/// A service that has an address can restate it, and can neither leave it out nor take another;
/// one that has none can take any.
pub proof fn law_cluster_ip_is_immutable(old: ServiceSpec, new: ServiceSpec)
    requires
        old.service_type@ == "ClusterIP"@,
        new.service_type@ == "ClusterIP"@,
    ensures
        new.cluster_ip == old.cluster_ip ==> !changes_cluster_ip(old, new),
        trimmed_ip(old.cluster_ip).len() == 0 ==> !changes_cluster_ip(old, new),
        trimmed_ip(old.cluster_ip).len() > 0 && trimmed_ip(new.cluster_ip).len() == 0
            ==> changes_cluster_ip(old, new),
        !is_none_word(trimmed_ip(old.cluster_ip)) && !is_none_word(trimmed_ip(new.cluster_ip))
            && trimmed_ip(old.cluster_ip).len() > 0 ==> (changes_cluster_ip(old, new) <==> trimmed_ip(
            old.cluster_ip,
        ) != trimmed_ip(new.cluster_ip)),
{
}

/// The address that was assigned to a service is the one that is released with it.
pub proof fn law_assigned_address_is_released(ip: Ipv4Addr, s: String)
    requires
        s@ == address::ipv4_text(ip),
    ensures
        address::ipv4_of(trimmed_ip(Some(s))) == Some(ip),
        trimmed_ip(Some(s)).len() > 0,
        !is_none_word(trimmed_ip(Some(s))),
{
    lemma_address_is_trimmed(ip);
    address::law_address_text_is_read_back(ip);
    let t = address::ipv4_text(ip);
    address::lemma_address_text(ip);
    reveal_strlit("none");
    if is_none_word(t) {
        assert(text::lowered("none"@)[0] == 'n');
        assert(text::lowered(t)[0] == text::ascii_lower(t[0]));
    }
}

proof fn lemma_address_is_trimmed(ip: Ipv4Addr)
    ensures
        text::trimmed(address::ipv4_text(ip)) == address::ipv4_text(ip),
{
    address::lemma_address_text(ip);
    let t = address::ipv4_text(ip);
    assert(!text::white()(t[0]));
    assert(!text::white()(t.last()));
    assert(text::drop_leading(t, text::white()) == t);
    assert(text::drop_trailing(t, text::white()) == t);
}

/// Whether an address of a network is kept back: the first one, the last one, the one behind the
/// first, and in a network of 256 addresses the one that ends in 254.
pub open spec fn is_kept_back(a: Ipv4Addr, n: Ipv4Network) -> bool {
    let size = vstd::arithmetic::power2::pow2((32 - n.prefix) as nat) as int;
    let offset = a.bits - (n.ip.bits - n.ip.bits as int % size);
    offset == 0 || offset == 1 || offset == size - 1 || n.prefix == 24 && a.bits % 256 == 254
}

/// An address of the services' network is reserved exactly when it is kept back.
pub proof fn law_reserved_addresses_are_kept_back(a: Ipv4Addr, n: Ipv4Network, r: bool)
    requires
        call_ensures(is_reserved_service_ip, (a, n), r),
        n.wf(),
    ensures
        r == is_kept_back(a, n),
{
}

/// Whether an address lies in a network and may be given to a service.
pub open spec fn is_free_to_give(a: Ipv4Addr, n: Ipv4Network) -> bool {
    let size = vstd::arithmetic::power2::pow2((32 - n.prefix) as nat) as int;
    let offset = a.bits - (n.ip.bits - n.ip.bits as int % size);
    0 < offset < size - 1 && !is_kept_back(a, n)
}

/// The candidates that are drawn lie in the network, are not kept back, and are at most 256
/// different ones. None are drawn from a network without hosts.
pub proof fn law_drawn_candidates_may_be_given(
    al: ServiceIpAllocator,
    r: Result<Vec<Ipv4Addr>, String>,
)
    requires
        call_ensures(ServiceIpAllocator::generate_candidate_ips, (&al,), r),
        searchable(al.service_cidr),
    ensures
        r matches Ok(c) ==> c@.len() > 0 && c@.len() <= 256 && c@.no_duplicates(),
        r matches Ok(c) ==> forall|i: int|
            0 <= i < c@.len() ==> is_free_to_give(#[trigger] c@[i], al.service_cidr),
        al.service_cidr.prefix >= 31 ==> r is Err,
{
    let n = al.service_cidr;
    vstd::arithmetic::power2::lemma2_to64();
    if let Ok(c) = r {
        let drawn = choose|drawn: Seq<u32>| can_be_drawn(n, drawn) && c@ == #[trigger] picked(n, drawn);
        law_candidates_are_usable(n, drawn);
        assert forall|i: int| 0 <= i < c@.len() implies is_free_to_give(#[trigger] c@[i], n) by {
            assert(usable(n, c@[i]));
        }
    }
}

/// The search of the network one by one tries addresses that may be given only, and each of them
/// where the network has no more than 65536 hosts, wherever it starts.
pub proof fn law_search_one_by_one_misses_none(al: ServiceIpAllocator, start: u32, r: Vec<Ipv4Addr>)
    requires
        call_ensures(ServiceIpAllocator::probe_addresses, (&al, start), r),
        searchable(al.service_cidr),
        al.service_cidr.prefix <= 30,
        start < probe_limit(al.service_cidr),
    ensures
        forall|i: int| 0 <= i < r@.len() ==> is_free_to_give(#[trigger] r@[i], al.service_cidr),
        al.service_cidr.prefix >= 16 ==> forall|a: Ipv4Addr| #[trigger]
            is_free_to_give(a, al.service_cidr) ==> r@.contains(a),
{
    let n = al.service_cidr;
    let e = (32 - n.prefix) as nat;
    vstd::arithmetic::power2::lemma2_to64();
    if e > 2 {
        vstd::arithmetic::power2::lemma_pow2_strictly_increases(2, e);
    }
    if e < 16 {
        vstd::arithmetic::power2::lemma_pow2_strictly_increases(e, 16);
    }
    assert(has_hosts(n));
    law_probed_addresses_are_usable(n, start as int);
    assert forall|i: int| 0 <= i < r@.len() implies is_free_to_give(#[trigger] r@[i], n) by {
        assert(usable(n, r@[i]));
    }
    if n.prefix >= 16 {
        assert forall|a: Ipv4Addr| #[trigger] is_free_to_give(a, n) implies r@.contains(a) by {
            law_probe_tries_every_host(n, start as int, a);
        }
    }
}

/// An address that was reserved is the one that is allocated, and it is the one that was tried.
/// One that is taken is followed by the next one of the queue; behind the last one the allocator
/// waits, and draws again as long as it has attempts left. An error ends the search.
pub proof fn law_the_reserved_address_is_allocated(
    al: ServiceIpAllocator,
    st: &mut Allocation,
    outcome: Reservation,
    step: AllocationStep,
)
    requires
        call_ensures(ServiceIpAllocator::reserved, (&al, st, outcome), step),
        is_trying(al, *old(st)),
        old(st).queue@.len() <= usize::MAX,
    ensures
        ({
            let q = old(st).queue@;
            let at = old(st).at as int;
            &&& step is Allocated <==> outcome is Reserved
            &&& step matches AllocationStep::Allocated(ip) ==> ip == q[at]
            &&& outcome is Failed ==> step is Failed
            &&& outcome is AlreadyAllocated && at + 1 < q.len() ==> step == AllocationStep::Reserve(
                q[at + 1],
            )
            &&& outcome is AlreadyAllocated && at + 1 == q.len() && !old(st).probing ==> step is Wait
                && final(st).attempt == old(st).attempt + 1
            &&& outcome is AlreadyAllocated && at + 1 == q.len() && old(st).probing ==> step is Failed
            &&& final(st).queue == old(st).queue
        }),
{
}

/// Trying begins with the first candidate. Waits between draws are 10 ms at first and double up to
/// 200 ms.
pub proof fn law_search_begins_with_the_first_candidate(
    al: ServiceIpAllocator,
    st: &mut Allocation,
    candidates: Result<Vec<Ipv4Addr>, String>,
    step: AllocationStep,
    begun: (Allocation, AllocationStep),
    attempt: usize,
    wait: u64,
    later: u64,
)
    requires
        call_ensures(ServiceIpAllocator::drawn, (&al, st, candidates), step),
        call_ensures(ServiceIpAllocator::allocate, (&al,), begun),
        call_ensures(backoff_ms, (attempt,), wait),
        call_ensures(backoff_ms, ((attempt + 1) as usize,), later),
        attempt < usize::MAX,
    ensures
        candidates matches Ok(c) ==> (if c@.len() > 0 {
            step == AllocationStep::Reserve(c@[0])
        } else {
            step is Failed
        }),
        candidates matches Ok(c) ==> final(st).queue@ == c@ && final(st).at == 0,
        candidates is Err ==> step is Failed,
        begun.1 == if al.max_retries > 0 {
            AllocationStep::Draw
        } else {
            AllocationStep::Probe
        },
        attempt == 0 ==> wait == 10,
        10 <= wait <= 200,
        later == if 2 * wait <= 200 {
            2 * wait
        } else {
            200
        },
{
    reveal_with_fuel(manager::power_of_two, 8);
}

/// Whether the word, in whatever case, is `none`.
pub open spec fn says_none(s: Seq<char>) -> bool {
    text::lowered(s) == "none"@
}

/// A service other than one of the cluster's, and one that asks for no address, keeps what it has.
/// Of the others one is refused where no network is set; one without an address gets one; and one
/// with an address has it looked up when it is one that may be given out of the network, and is
/// refused otherwise.
pub proof fn law_given_address_has_to_be_one_to_give(
    spec: ServiceSpec,
    cidr: Option<Ipv4Network>,
    step: ClusterIpStep,
)
    requires
        call_ensures(validate_cluster_ip, (&spec, cidr), step),
        cidr matches Some(n) ==> n.wf(),
    ensures
        ({
            let asked = match spec.cluster_ip {
                Some(s) => text::trimmed(s@),
                None => Seq::<char>::empty(),
            };
            let exempt = spec.service_type@ != "ClusterIP"@ || (spec.cluster_ip matches Some(s)
                && says_none(s@));
            &&& step is Keep <==> exempt
            &&& !exempt && cidr is None ==> step is Refuse
            &&& step is Allocate <==> !exempt && cidr is Some && asked.len() == 0
            &&& step matches ClusterIpStep::LookUp(ip) ==> address::ipv4_of(asked) == Some(ip)
                && cidr is Some && is_free_to_give(ip, cidr->0)
            &&& !exempt && cidr is Some && asked.len() > 0 && (address::ipv4_of(asked) matches Some(ip)
                && is_free_to_give(ip, cidr->0)) ==> step == ClusterIpStep::LookUp(
                address::ipv4_of(asked)->0,
            )
            &&& !(step is Reserve)
        }),
{
    assert("none"@ =~= text::lowered("none"@)) by {
        reveal_strlit("none");
    }
    if let Some(n) = cidr {
        address::lemma_first4(n);
    }
}

/// The record of an address decides: without one the address is reserved, one of the same service
/// lets it keep it, and one of another service refuses it.
pub proof fn law_recorded_address_belongs_to_one_service(
    namespace: &str,
    name: &str,
    ip: Ipv4Addr,
    record: Option<ServiceIpRecord>,
    step: ClusterIpStep,
)
    requires
        call_ensures(check_record, (namespace, name, ip, &record), step),
    ensures
        record is None <==> step is Reserve,
        step matches ClusterIpStep::Reserve(a) ==> a == ip,
        step is Keep <==> (record matches Some(r) && r.service_namespace@ == namespace@
            && r.service_name@ == name@),
        step is Refuse <==> (record matches Some(r) && !(r.service_namespace@ == namespace@
            && r.service_name@ == name@)),
{
}

/// The address of a service cannot be changed once it has one: an update that names another one is
/// refused, and one that repeats it is accepted.
pub proof fn law_address_cannot_be_changed(
    name: &str,
    old: ServiceSpec,
    new: ServiceSpec,
    r: Result<(), String>,
)
    requires
        call_ensures(validate_cluster_ip_immutability, (name, &old, &new), r),
        old.service_type@ == "ClusterIP"@,
        new.service_type@ == "ClusterIP"@,
        old.cluster_ip is Some,
        new.cluster_ip is Some,
        text::trimmed(old.cluster_ip->0@).len() > 0,
        text::trimmed(new.cluster_ip->0@).len() > 0,
        !says_none(text::trimmed(old.cluster_ip->0@)),
        !says_none(text::trimmed(new.cluster_ip->0@)),
    ensures
        r is Ok <==> text::trimmed(old.cluster_ip->0@) == text::trimmed(new.cluster_ip->0@),
{
    assert("none"@ =~= text::lowered("none"@)) by {
        reveal_strlit("none");
    }
}

/// A service without an address may be given one, and one whose address is dropped is refused,
/// among those of the cluster.
pub proof fn law_address_cannot_be_dropped(
    name: &str,
    old: ServiceSpec,
    new: ServiceSpec,
    r: Result<(), String>,
)
    requires
        call_ensures(validate_cluster_ip_immutability, (name, &old, &new), r),
        old.service_type@ == "ClusterIP"@,
        new.service_type@ == "ClusterIP"@,
    ensures
        old.cluster_ip is None ==> r is Ok,
        (old.cluster_ip matches Some(s) && text::trimmed(s@).len() > 0) && new.cluster_ip is None
            ==> r is Err,
{
}

/// When a service goes, the address that it had is given back, unless it had none or said so.
pub proof fn law_deleted_service_gives_its_address_back(
    spec: ServiceSpec,
    r: Result<Option<Ipv4Addr>, String>,
)
    requires
        call_ensures(deallocate_cluster_ip, (&spec,), r),
    ensures
        ({
            let s = match spec.cluster_ip {
                Some(s) => text::trimmed(s@),
                None => Seq::<char>::empty(),
            };
            &&& s.len() == 0 || says_none(s) ==> r == Ok::<Option<Ipv4Addr>, String>(None)
            &&& s.len() > 0 && !says_none(s) ==> (r is Ok <==> address::ipv4_of(s) is Some)
            &&& s.len() > 0 && !says_none(s) && r is Ok ==> r->Ok_0 == address::ipv4_of(s)
        }),
{
    assert("none"@ =~= text::lowered("none"@)) by {
        reveal_strlit("none");
    }
}

/// The registry keeps an address under its own text, and an attempt to reserve one tells whether
/// it succeeded.
pub proof fn law_registry_keys_are_by_address(
    ip: Ipv4Addr,
    key: String,
    succeeded: bool,
    r: Result<(), ServiceIpError>,
)
    requires
        call_ensures(ServiceIpRegistry::make_key, (ip,), key),
        call_ensures(ServiceIpRegistry::allocated, (ip, succeeded), r),
    ensures
        key@ == "/registry/service-ips/"@ + address::ipv4_text(ip),
        r is Ok <==> succeeded,
        r matches Err(e) ==> (e matches ServiceIpError::AlreadyAllocated { ip: a } && a == ip),
{
}

/// An address that is assigned is written as text, and nothing else of the specification changes.
pub proof fn law_assigned_address_is_written(spec: &mut ServiceSpec, ip: Ipv4Addr)
    requires
        call_ensures(assign_cluster_ip, (spec, ip), ()),
    ensures
        final(spec).cluster_ip matches Some(s) && s@ == address::ipv4_text(ip),
        final(spec).ports == old(spec).ports,
        final(spec).selector == old(spec).selector,
        final(spec).service_type == old(spec).service_type,
{
}

} // verus!

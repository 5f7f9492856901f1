//! Starting the pod network.
use vstd::prelude::*;
use crate::network::address;
use crate::network::address::{Ipv4Network, Ipv6Network};
use crate::protocol::config::XlineConfig;
use crate::text;
use crate::text::{concat2, concat3, eq_ignoring_ascii_case, split_char, str_eq, to_decimal_signed, trim};

verus! {

/// The least number of minutes before its end that a lease is renewed.
pub const MIN_RENEW_MARGIN: i64 = 1;

/// The greatest number of minutes before its end that a lease is renewed.
pub const MAX_RENEW_MARGIN: i64 = 1439;

/// The number of minutes before its end that a lease is renewed, when none is configured.
pub const DEFAULT_RENEW_MARGIN: i64 = 60;

/// The largest packet when the network does not tell.
pub const DEFAULT_MTU: u32 = 1500;

/// The configured margin, or the default.
pub open spec fn margin(cfg: XlineConfig) -> i64 {
    match cfg.subnet_lease_renew_margin {
        Some(m) => m,
        None => DEFAULT_RENEW_MARGIN,
    }
}

/// Whether a lease may be renewed that many minutes before its end.
pub open spec fn margin_allowed(m: i64) -> bool {
    MIN_RENEW_MARGIN <= m <= MAX_RENEW_MARGIN
}

/// What is said of a margin that is not allowed.
pub open spec fn margin_fault(m: i64) -> Seq<char> {
    "Invalid subnet-lease-renew-margin ("@ + text::decimal_int(m as int)
        + "), must be between 1 and 1439 minutes"@
}

/// Sets the margin before which a lease is renewed, when none is configured, and checks it.
pub fn check_renew_margin(cfg: &mut XlineConfig) -> (r: Result<(), String>)
    ensures
        *final(cfg) == (XlineConfig {
            subnet_lease_renew_margin: Some(margin(*old(cfg))),
            ..*old(cfg)
        }),
        match r {
            Ok(_) => margin_allowed(margin(*old(cfg))),
            Err(m) => !margin_allowed(margin(*old(cfg))) && m@ == margin_fault(margin(*old(cfg))),
        },
{
    let m: i64 = match cfg.subnet_lease_renew_margin {
        Some(m) => m,
        None => DEFAULT_RENEW_MARGIN,
    };
    cfg.subnet_lease_renew_margin = Some(m);
    if m < MIN_RENEW_MARGIN || m > MAX_RENEW_MARGIN {
        return Err(
            concat3(
                "Invalid subnet-lease-renew-margin (",
                to_decimal_signed(m).as_str(),
                "), must be between 1 and 1439 minutes",
            ),
        );
    }
    Ok(())
}

/// The steps of starting the network, in order, once the configuration is found to be in order.
#[derive(Debug, Clone, Copy, PartialEq, Eq, Structural)]
pub enum InitStep {
    /// Connect to the registry of subnets.
    CreateManager,
    /// Wait for the network configuration.
    FetchConfig,
    /// Determine the address families.
    FindFamily,
    /// Look whether bridged IPv4 traffic can be filtered.
    CheckBridge4,
    /// Look whether bridged IPv6 traffic can be filtered.
    CheckBridge6,
    /// Find the interface to use.
    FindInterface,
    CreateBackend,
    /// Lease a subnet.
    RegisterNetwork,
    /// Read the lease.
    ReadLease,
    WriteSubnetFile,
    /// Run the network in the background and keep the lease until it is lost.
    CompleteLease,
    /// Wait for the end of the network or of the program.
    Wait,
}

/// What a step came to.
#[derive(Debug)]
pub enum InitOutcome {
    Succeeded,
    Failed(String),
    /// The start was cancelled meanwhile.
    Cancelled,
}

/// What follows a step.
#[derive(Debug)]
pub enum InitNext {
    Go(InitStep),
    /// Cancel what runs, then go on.
    CancelAndGo(InitStep),
    /// End without an error.
    Done,
    /// Cancel what runs and end without an error.
    CancelAndDone,
    /// Fail with the message.
    Fail(String),
    /// Cancel what runs and fail with the message.
    CancelAndFail(String),
}

pub open spec fn fails(n: InitNext, m: Seq<char>) -> bool {
    n matches InitNext::Fail(t) && t@ == m
}

pub open spec fn cancels(n: InitNext, m: Seq<char>) -> bool {
    n matches InitNext::CancelAndFail(t) && t@ == m
}

/// Whether the error says that the lease was given up on purpose.
pub open spec fn interrupted(e: Seq<char>) -> bool {
    text::lowered(e) == text::lowered("errInterrupted"@)
}

/// Whether the network runs during the step.
pub open spec fn runs(step: InitStep) -> bool {
    step == InitStep::CompleteLease || step == InitStep::Wait
}

/// What follows a step that succeeded.
pub open spec fn after_success(step: InitStep) -> InitNext {
    match step {
        InitStep::CreateManager => InitNext::Go(InitStep::FetchConfig),
        InitStep::FetchConfig => InitNext::Go(InitStep::FindFamily),
        InitStep::FindFamily => InitNext::Go(InitStep::CheckBridge4),
        InitStep::CheckBridge4 => InitNext::Go(InitStep::CheckBridge6),
        InitStep::CheckBridge6 => InitNext::Go(InitStep::FindInterface),
        InitStep::FindInterface => InitNext::Go(InitStep::CreateBackend),
        InitStep::CreateBackend => InitNext::Go(InitStep::RegisterNetwork),
        InitStep::RegisterNetwork => InitNext::Go(InitStep::ReadLease),
        InitStep::ReadLease => InitNext::Go(InitStep::WriteSubnetFile),
        InitStep::WriteSubnetFile => InitNext::Go(InitStep::CompleteLease),
        InitStep::CompleteLease => InitNext::Go(InitStep::Wait),
        InitStep::Wait => InitNext::Done,
    }
}

/// What follows a step during which the start was cancelled: a clean end, at which the network
/// is stopped where it runs.
pub open spec fn after_cancellation(step: InitStep) -> InitNext {
    if runs(step) {
        InitNext::CancelAndDone
    } else {
        InitNext::Done
    }
}

/// What follows a step that failed with an error.
pub open spec fn after_failure(step: InitStep, e: Seq<char>, n: InitNext) -> bool {
    match step {
        InitStep::CreateManager => fails(n, "new_subnet_manager failed"@),
        InitStep::FetchConfig => fails(n, "get_config failed"@),
        InitStep::FindFamily => fails(n, "Failed to determine IP family stack: "@ + e),
        InitStep::CheckBridge4 => fails(
            n,
            "br_netfilter check failed: /proc/sys/net/bridge/bridge-nf-call-iptables missing"@,
        ),
        InitStep::CheckBridge6 => fails(
            n,
            "br_netfilter check failed: /proc/sys/net/bridge/bridge-nf-call-ip6tables missing"@,
        ),
        InitStep::FindInterface => fails(n, "Failed to find any valid interface to use: "@ + e),
        InitStep::CreateBackend => cancels(n, "Error creating HostGW backend: "@ + e),
        InitStep::RegisterNetwork => cancels(n, "Error registering network: "@ + e),
        InitStep::ReadLease => fails(n, e),
        InitStep::WriteSubnetFile => n == InitNext::Go(InitStep::CompleteLease),
        InitStep::CompleteLease => n == if interrupted(e) {
            InitNext::CancelAndGo(InitStep::Wait)
        } else {
            InitNext::Go(InitStep::Wait)
        },
        InitStep::Wait => n == InitNext::CancelAndDone,
    }
}

/// Whether `n` follows what a step came to.
pub open spec fn follows(step: InitStep, outcome: InitOutcome, n: InitNext) -> bool {
    match outcome {
        InitOutcome::Succeeded => n == after_success(step),
        InitOutcome::Failed(e) => after_failure(step, e@, n),
        InitOutcome::Cancelled => n == after_cancellation(step),
    }
}

/// Begins to start the network. The margin before which a lease is renewed is set, when none is
/// configured, and checked before anything else is done.
pub fn init_network(cfg: &mut XlineConfig) -> (n: InitNext)
    ensures
        *final(cfg) == (XlineConfig {
            subnet_lease_renew_margin: Some(margin(*old(cfg))),
            ..*old(cfg)
        }),
        if margin_allowed(margin(*old(cfg))) {
            n == InitNext::Go(InitStep::CreateManager)
        } else {
            fails(n, margin_fault(margin(*old(cfg))))
        },
{
    match check_renew_margin(cfg) {
        Ok(_) => InitNext::Go(InitStep::CreateManager),
        Err(m) => InitNext::Fail(m),
    }
}

/// What follows a step of starting the network.
pub fn init_step(step: InitStep, outcome: InitOutcome) -> (n: InitNext)
    ensures
        follows(step, outcome, n),
{
    match outcome {
        InitOutcome::Succeeded => match step {
            InitStep::CreateManager => InitNext::Go(InitStep::FetchConfig),
            InitStep::FetchConfig => InitNext::Go(InitStep::FindFamily),
            InitStep::FindFamily => InitNext::Go(InitStep::CheckBridge4),
            InitStep::CheckBridge4 => InitNext::Go(InitStep::CheckBridge6),
            InitStep::CheckBridge6 => InitNext::Go(InitStep::FindInterface),
            InitStep::FindInterface => InitNext::Go(InitStep::CreateBackend),
            InitStep::CreateBackend => InitNext::Go(InitStep::RegisterNetwork),
            InitStep::RegisterNetwork => InitNext::Go(InitStep::ReadLease),
            InitStep::ReadLease => InitNext::Go(InitStep::WriteSubnetFile),
            InitStep::WriteSubnetFile => InitNext::Go(InitStep::CompleteLease),
            InitStep::CompleteLease => InitNext::Go(InitStep::Wait),
            InitStep::Wait => InitNext::Done,
        },
        InitOutcome::Cancelled => match step {
            InitStep::CompleteLease => InitNext::CancelAndDone,
            InitStep::Wait => InitNext::CancelAndDone,
            _ => InitNext::Done,
        },
        InitOutcome::Failed(e) => match step {
            InitStep::CreateManager => InitNext::Fail("new_subnet_manager failed".to_owned()),
            InitStep::FetchConfig => InitNext::Fail("get_config failed".to_owned()),
            InitStep::FindFamily => InitNext::Fail(
                concat2("Failed to determine IP family stack: ", e.as_str()),
            ),
            InitStep::CheckBridge4 => InitNext::Fail(
                "br_netfilter check failed: /proc/sys/net/bridge/bridge-nf-call-iptables missing".to_owned(),
            ),
            InitStep::CheckBridge6 => InitNext::Fail(
                "br_netfilter check failed: /proc/sys/net/bridge/bridge-nf-call-ip6tables missing".to_owned(),
            ),
            InitStep::FindInterface => InitNext::Fail(
                concat2("Failed to find any valid interface to use: ", e.as_str()),
            ),
            InitStep::CreateBackend => InitNext::CancelAndFail(
                concat2("Error creating HostGW backend: ", e.as_str()),
            ),
            InitStep::RegisterNetwork => InitNext::CancelAndFail(
                concat2("Error registering network: ", e.as_str()),
            ),
            InitStep::ReadLease => InitNext::Fail(e),
            InitStep::WriteSubnetFile => InitNext::Go(InitStep::CompleteLease),
            InitStep::CompleteLease => if eq_ignoring_ascii_case(e.as_str(), "errInterrupted") {
                InitNext::CancelAndGo(InitStep::Wait)
            } else {
                InitNext::Go(InitStep::Wait)
            },
            InitStep::Wait => InitNext::CancelAndDone,
        },
    }
}

/// Whether a check of bridged traffic is passed: the family is not used, or its file is there.
pub fn bridge_check(enabled: bool, file_exists: bool) -> (r: bool)
    ensures
        r == (enabled ==> file_exists),
{
    !enabled || file_exists
}

/// What waiting for the configuration came to.
#[derive(Debug)]
pub enum ConfigPoll {
    Found,
    /// It could not be fetched, and a second went by.
    Missing,
    Cancelled,
}

/// What waiting for the configuration came to, once it ends. Where there is none yet it goes on.
pub fn get_config(poll: ConfigPoll) -> (r: Option<InitOutcome>)
    ensures
        r == match poll {
            ConfigPoll::Found => Some(InitOutcome::Succeeded),
            ConfigPoll::Missing => None,
            ConfigPoll::Cancelled => Some(InitOutcome::Cancelled),
        },
{
    match poll {
        ConfigPoll::Found => Some(InitOutcome::Succeeded),
        ConfigPoll::Missing => None,
        ConfigPoll::Cancelled => Some(InitOutcome::Cancelled),
    }
}

/// A line of a subnet file: a name and a value, or nothing when it is none.
pub open spec fn entry_view(e: Option<(String, String)>) -> Option<(Seq<char>, Seq<char>)> {
    match e {
        Some(p) => Some((p.0@, p.1@)),
        None => None,
    }
}

pub open spec fn entries_view(v: Seq<Option<(String, String)>>) -> Seq<
    Option<(Seq<char>, Seq<char>)>,
> {
    v.map_values(|e: Option<(String, String)>| entry_view(e))
}

/// The lines of a subnet file without references to variables.
pub uninterp spec fn env_entries(b: Seq<u8>) -> Seq<Option<(Seq<char>, Seq<char>)>>;

/// `dotenvy::from_read_iter`: the names and values of the lines, and nothing for a line that
/// is none. A dollar sign stands for a variable of the environment; without one the result
/// depends on the content alone.
#[verifier::external_body]
fn read_env(b: &[u8]) -> (r: Vec<Option<(String, String)>>)
    ensures
        !b@.contains(36u8) ==> entries_view(r@) == env_entries(b@),
{
    dotenvy::from_read_iter(b).map(|e| e.ok()).collect()
}

/// The networks among the first `n` pieces of a value.
pub open spec fn networks_of(pieces: Seq<Seq<char>>, n: int) -> Seq<Ipv4Network>
    decreases n,
{
    if n <= 0 {
        Seq::empty()
    } else {
        match address::network4(text::trimmed(pieces[n - 1])) {
            Some(c) => networks_of(pieces, n - 1).push(c),
            None => networks_of(pieces, n - 1),
        }
    }
}

/// The networks that the first `n` lines give a name.
pub open spec fn cidrs_of(e: Seq<Option<(Seq<char>, Seq<char>)>>, key: Seq<char>, n: int) -> Seq<
    Ipv4Network,
>
    decreases n,
{
    if n <= 0 {
        Seq::empty()
    } else {
        match e[n - 1] {
            Some(p) => if p.0 == key {
                let pieces = text::split_on(p.1, ',');
                cidrs_of(e, key, n - 1) + networks_of(pieces, pieces.len() as int)
            } else {
                cidrs_of(e, key, n - 1)
            },
            None => cidrs_of(e, key, n - 1),
        }
    }
}

/// The networks among the first `n` pieces of a value.
pub open spec fn networks6_of(pieces: Seq<Seq<char>>, n: int) -> Seq<Ipv6Network>
    decreases n,
{
    if n <= 0 {
        Seq::empty()
    } else {
        match address::network6(text::trimmed(pieces[n - 1])) {
            Some(c) => networks6_of(pieces, n - 1).push(c),
            None => networks6_of(pieces, n - 1),
        }
    }
}

/// The networks that the first `n` lines give a name.
pub open spec fn cidrs6_of(e: Seq<Option<(Seq<char>, Seq<char>)>>, key: Seq<char>, n: int) -> Seq<
    Ipv6Network,
>
    decreases n,
{
    if n <= 0 {
        Seq::empty()
    } else {
        match e[n - 1] {
            Some(p) => if p.0 == key {
                let pieces = text::split_on(p.1, ',');
                cidrs6_of(e, key, n - 1) + networks6_of(pieces, pieces.len() as int)
            } else {
                cidrs6_of(e, key, n - 1)
            },
            None => cidrs6_of(e, key, n - 1),
        }
    }
}

/// The only one of a list.
pub open spec fn only_one<T>(s: Seq<T>) -> Option<T> {
    if s.len() == 1 {
        Some(s[0])
    } else {
        None
    }
}

/// The networks that lines give a name. A value lists networks with commas between them;
/// what is none is passed over.
pub fn cidrs_of_entries(entries: &Vec<Option<(String, String)>>, key: &str) -> (r: Vec<
    Ipv4Network,
>)
    ensures
        r@ == cidrs_of(entries_view(entries@), key@, entries@.len() as int),
{
    let ghost e = entries_view(entries@);
    let mut out: Vec<Ipv4Network> = Vec::new();
    for i in 0..entries.len()
        invariant
            e == entries_view(entries@),
            out@ == cidrs_of(e, key@, i as int),
    {
        assert(e[i as int] == entry_view(entries@[i as int]));
        if let Some(p) = &entries[i] {
            if str_eq(p.0.as_str(), key) {
                let pieces = split_char(p.1.as_str(), ',');
                let ghost ps = text::split_on(p.1@, ',');
                let ghost before = out@;
                assert(text::texts(pieces@) == ps);
                assert(ps.len() == pieces@.len());
                assert(before + networks_of(ps, 0) =~= before);
                for j in 0..pieces.len()
                    invariant
                        text::texts(pieces@) == ps,
                        ps.len() == pieces@.len(),
                        out@ == before + networks_of(ps, j as int),
                {
                    assert(ps[j as int] == pieces@[j as int]@);
                    if let Some(c) = Ipv4Network::parse(trim(pieces[j].as_str()).as_str()) {
                        out.push(c);
                        assert(out@ =~= before + networks_of(ps, j + 1));
                    }
                }
            }
        }
    }
    out
}

/// The networks that lines give a name.
pub fn ip6_cidrs_of_entries(entries: &Vec<Option<(String, String)>>, key: &str) -> (r: Vec<
    Ipv6Network,
>)
    ensures
        r@ == cidrs6_of(entries_view(entries@), key@, entries@.len() as int),
{
    let ghost e = entries_view(entries@);
    let mut out: Vec<Ipv6Network> = Vec::new();
    for i in 0..entries.len()
        invariant
            e == entries_view(entries@),
            out@ == cidrs6_of(e, key@, i as int),
    {
        assert(e[i as int] == entry_view(entries@[i as int]));
        if let Some(p) = &entries[i] {
            if str_eq(p.0.as_str(), key) {
                let pieces = split_char(p.1.as_str(), ',');
                let ghost ps = text::split_on(p.1@, ',');
                let ghost before = out@;
                assert(text::texts(pieces@) == ps);
                assert(ps.len() == pieces@.len());
                assert(before + networks6_of(ps, 0) =~= before);
                for j in 0..pieces.len()
                    invariant
                        text::texts(pieces@) == ps,
                        ps.len() == pieces@.len(),
                        out@ == before + networks6_of(ps, j as int),
                {
                    assert(ps[j as int] == pieces@[j as int]@);
                    if let Some(c) = Ipv6Network::parse(trim(pieces[j].as_str()).as_str()) {
                        out.push(c);
                        assert(out@ =~= before + networks6_of(ps, j + 1));
                    }
                }
            }
        }
    }
    out
}

/// The networks that a subnet file, given by its content, gives a name.
pub fn read_cidrs_from_subnet_file(content: &[u8], cidr_key: &str) -> (r: Vec<Ipv4Network>)
    ensures
        !content@.contains(36u8) ==> r@ == cidrs_of(
            env_entries(content@),
            cidr_key@,
            env_entries(content@).len() as int,
        ),
        exists|e: Seq<Option<(Seq<char>, Seq<char>)>>|
            r@ == #[trigger] cidrs_of(e, cidr_key@, e.len() as int),
{
    let entries = read_env(content);
    assert(entries_view(entries@).len() == entries@.len());
    let r = cidrs_of_entries(&entries, cidr_key);
    proof {
        let e = entries_view(entries@);
        assert(r@ == cidrs_of(e, cidr_key@, e.len() as int));
    }
    r
}

/// The only network that a subnet file gives a name.
pub fn read_cidr_from_subnet_file(content: &[u8], cidr_key: &str) -> (r: Option<Ipv4Network>)
    ensures
        !content@.contains(36u8) ==> r == only_one(
            cidrs_of(env_entries(content@), cidr_key@, env_entries(content@).len() as int),
        ),
        exists|e: Seq<Option<(Seq<char>, Seq<char>)>>|
            r == only_one(#[trigger] cidrs_of(e, cidr_key@, e.len() as int)),
{
    let cidrs = read_cidrs_from_subnet_file(content, cidr_key);
    if cidrs.len() == 1 {
        Some(cidrs[0])
    } else {
        None
    }
}

/// The IPv6 networks that a subnet file, given by its content, gives a name.
pub fn read_ip6_cidrs_from_subnet_file(content: &[u8], cidr_key: &str) -> (r: Vec<Ipv6Network>)
    ensures
        !content@.contains(36u8) ==> r@ == cidrs6_of(
            env_entries(content@),
            cidr_key@,
            env_entries(content@).len() as int,
        ),
        exists|e: Seq<Option<(Seq<char>, Seq<char>)>>|
            r@ == #[trigger] cidrs6_of(e, cidr_key@, e.len() as int),
{
    let entries = read_env(content);
    assert(entries_view(entries@).len() == entries@.len());
    let r = ip6_cidrs_of_entries(&entries, cidr_key);
    proof {
        let e = entries_view(entries@);
        assert(r@ == cidrs6_of(e, cidr_key@, e.len() as int));
    }
    r
}

/// The only IPv6 network that a subnet file gives a name.
pub fn read_ip6_cidr_from_subnet_file(content: &[u8], cidr_key: &str) -> (r: Option<Ipv6Network>)
    ensures
        !content@.contains(36u8) ==> r == only_one(
            cidrs6_of(env_entries(content@), cidr_key@, env_entries(content@).len() as int),
        ),
        exists|e: Seq<Option<(Seq<char>, Seq<char>)>>|
            r == only_one(#[trigger] cidrs6_of(e, cidr_key@, e.len() as int)),
{
    let cidrs = read_ip6_cidrs_from_subnet_file(content, cidr_key);
    if cidrs.len() == 1 {
        Some(cidrs[0])
    } else {
        None
    }
}

/// The number of steps that a start has at most still to take.
pub open spec fn steps_left(step: InitStep) -> int {
    match step {
        InitStep::CreateManager => 12,
        InitStep::FetchConfig => 11,
        InitStep::FindFamily => 10,
        InitStep::CheckBridge4 => 9,
        InitStep::CheckBridge6 => 8,
        InitStep::FindInterface => 7,
        InitStep::CreateBackend => 6,
        InitStep::RegisterNetwork => 5,
        InitStep::ReadLease => 4,
        InitStep::WriteSubnetFile => 3,
        InitStep::CompleteLease => 2,
        InitStep::Wait => 1,
    }
}

/// A start goes forward with every step until it ends: no step is taken twice, and waiting is the
/// last.
pub proof fn law_start_goes_forward(step: InitStep, outcome: InitOutcome, n: InitNext)
    requires
        follows(step, outcome, n),
    ensures
        n matches InitNext::Go(s) ==> steps_left(s) == steps_left(step) - 1,
        n matches InitNext::CancelAndGo(s) ==> steps_left(s) == steps_left(step) - 1,
        step == InitStep::Wait ==> n is Done || n is CancelAndDone,
{
}

/// A cancellation is a clean end, at whatever step it comes.
pub proof fn law_cancelled_start_ends_cleanly(step: InitStep, n: InitNext)
    requires
        follows(step, InitOutcome::Cancelled, n),
    ensures
        n is Done || n is CancelAndDone,
        n is CancelAndDone <==> runs(step),
{
}

/// The margin for renewing a lease is the one that is set, or an hour, and has to lie within a
/// day; nothing else of the configuration changes. The network is started only then.
pub proof fn law_margin_has_to_lie_within_a_day(
    cfg: &mut XlineConfig,
    r: Result<(), String>,
    other: &mut XlineConfig,
    n: InitNext,
)
    requires
        call_ensures(check_renew_margin, (cfg,), r),
        call_ensures(init_network, (other,), n),
    ensures
        r is Ok <==> (old(cfg).subnet_lease_renew_margin matches Some(m) ==> 1 <= m < 24 * 60),
        old(cfg).subnet_lease_renew_margin is Some ==> final(cfg).subnet_lease_renew_margin == old(
            cfg).subnet_lease_renew_margin,
        old(cfg).subnet_lease_renew_margin is None ==> final(cfg).subnet_lease_renew_margin == Some(
            60i64,
        ),
        final(cfg).endpoints == old(cfg).endpoints && final(cfg).prefix == old(cfg).prefix,
        n == InitNext::Go(InitStep::CreateManager) <==> (
        old(other).subnet_lease_renew_margin matches Some(m) ==> 1 <= m < 24 * 60),
        n is Fail <==> !(old(other).subnet_lease_renew_margin matches Some(m) ==> 1 <= m < 24 * 60),
{
}

/// A step that fails ends the start, but for the file of the subnet, which may fail, and for the
/// work on the lease, after which the rest is waited for. What was begun is cancelled once the
/// backend is made.
pub proof fn law_failed_step_ends_the_start(step: InitStep, e: String, n: InitNext, c: InitNext)
    requires
        call_ensures(init_step, (step, InitOutcome::Failed(e)), n),
        call_ensures(init_step, (step, InitOutcome::Cancelled), c),
    ensures
        step == InitStep::WriteSubnetFile <==> n == InitNext::Go(InitStep::CompleteLease),
        step == InitStep::CompleteLease ==> n == InitNext::Go(InitStep::Wait) || n
            == InitNext::CancelAndGo(InitStep::Wait),
        step == InitStep::Wait ==> n is CancelAndDone,
        step == InitStep::CreateBackend || step == InitStep::RegisterNetwork <==> n is CancelAndFail,
        n is Fail || n is CancelAndFail || step == InitStep::WriteSubnetFile || step
            == InitStep::CompleteLease || step == InitStep::Wait,
        c is CancelAndDone <==> step == InitStep::CompleteLease || step == InitStep::Wait,
        c is Done <==> !(c is CancelAndDone),
{
}

/// The steps follow one another in their order until all is waited for.
pub proof fn law_steps_follow_one_another(step: InitStep, n: InitNext)
    requires
        call_ensures(init_step, (step, InitOutcome::Succeeded), n),
    ensures
        step == InitStep::Wait <==> n is Done,
        step != InitStep::Wait ==> n is Go,
        n matches InitNext::Go(s) ==> {
            &&& step == InitStep::CreateManager <==> s == InitStep::FetchConfig
            &&& step == InitStep::FetchConfig <==> s == InitStep::FindFamily
            &&& step == InitStep::FindFamily <==> s == InitStep::CheckBridge4
            &&& step == InitStep::CheckBridge4 <==> s == InitStep::CheckBridge6
            &&& step == InitStep::CheckBridge6 <==> s == InitStep::FindInterface
            &&& step == InitStep::FindInterface <==> s == InitStep::CreateBackend
            &&& step == InitStep::CreateBackend <==> s == InitStep::RegisterNetwork
            &&& step == InitStep::RegisterNetwork <==> s == InitStep::ReadLease
            &&& step == InitStep::ReadLease <==> s == InitStep::WriteSubnetFile
            &&& step == InitStep::WriteSubnetFile <==> s == InitStep::CompleteLease
            &&& step == InitStep::CompleteLease <==> s == InitStep::Wait
        },
{
}

/// Whether a piece of a line of the key, without white space around it, is the network.
pub open spec fn stands_in(
    entries: Seq<Option<(String, String)>>,
    key: Seq<char>,
    net: Ipv4Network,
) -> bool {
    exists|i: int, k: int|
        0 <= i < entries.len() && entries[i] is Some && (entries[i]->0).0@ == key && 0 <= k
            < text::split_on((entries[i]->0).1@, ',').len() && address::network4(
            text::trimmed(#[trigger] text::split_on(((#[trigger] entries[i])->0).1@, ',')[k]),
        ) == Some(net)
}

proof fn lemma_networks_of(pieces: Seq<Seq<char>>, n: int, net: Ipv4Network)
    requires
        0 <= n <= pieces.len(),
    ensures
        networks_of(pieces, n).contains(net) <==> exists|k: int|
            0 <= k < n && address::network4(text::trimmed(#[trigger] pieces[k])) == Some(net),
    decreases n,
{
    broadcast use vstd::seq_lib::group_seq_properties;

    if n > 0 {
        lemma_networks_of(pieces, n - 1, net);
    }
}

proof fn lemma_cidrs_of(
    entries: Seq<Option<(String, String)>>,
    key: Seq<char>,
    n: int,
    net: Ipv4Network,
)
    requires
        0 <= n <= entries.len(),
    ensures
        cidrs_of(entries_view(entries), key, n).contains(net) <==> stands_in(
            entries.take(n),
            key,
            net,
        ),
    decreases n,
{
    broadcast use vstd::seq_lib::group_seq_properties;

    let e = entries_view(entries);
    let now = entries.take(n);
    if n > 0 {
        let before = entries.take(n - 1);
        lemma_cidrs_of(entries, key, n - 1, net);
        assert(e[n - 1] == entry_view(entries[n - 1]));
        if stands_in(before, key, net) {
            let (i, k) = choose|i: int, k: int|
                0 <= i < before.len() && before[i] is Some && (before[i]->0).0@ == key && 0 <= k
                    < text::split_on((before[i]->0).1@, ',').len() && address::network4(
                    text::trimmed(#[trigger] text::split_on(((#[trigger] before[i])->0).1@, ',')[k]),
                ) == Some(net);
            assert(now[i] == before[i]);
            assert(stands_in(now, key, net));
        }
        if entries[n - 1] is Some && (entries[n - 1]->0).0@ == key {
            let pieces = text::split_on((entries[n - 1]->0).1@, ',');
            lemma_networks_of(pieces, pieces.len() as int, net);
            if networks_of(pieces, pieces.len() as int).contains(net) {
                let k = choose|k: int|
                    0 <= k < pieces.len() && address::network4(text::trimmed(#[trigger] pieces[k]))
                        == Some(net);
                assert(now[n - 1] == entries[n - 1]);
                assert(text::split_on((now[n - 1]->0).1@, ',')[k] == pieces[k]);
                assert(stands_in(now, key, net));
            }
        }
        if stands_in(now, key, net) {
            let (i, k) = choose|i: int, k: int|
                0 <= i < now.len() && now[i] is Some && (now[i]->0).0@ == key && 0 <= k
                    < text::split_on((now[i]->0).1@, ',').len() && address::network4(
                    text::trimmed(#[trigger] text::split_on(((#[trigger] now[i])->0).1@, ',')[k]),
                ) == Some(net);
            if i < n - 1 {
                assert(before[i] == now[i]);
                assert(stands_in(before, key, net));
            } else {
                let pieces = text::split_on((entries[n - 1]->0).1@, ',');
                assert(address::network4(text::trimmed(pieces[k])) == Some(net));
            }
        }
    }
}

/// The networks of a key are those that stand in its lines, between commas.
pub proof fn law_networks_are_those_of_the_key(
    entries: Vec<Option<(String, String)>>,
    key: &str,
    r: Vec<Ipv4Network>,
    net: Ipv4Network,
)
    requires
        call_ensures(cidrs_of_entries, (&entries, key), r),
    ensures
        r@.contains(net) <==> stands_in(entries@, key@, net),
{
    lemma_cidrs_of(entries@, key@, entries@.len() as int, net);
    assert(entries@.take(entries@.len() as int) =~= entries@);
}

} // verus!

//! The configuration of the control plane.
use vstd::prelude::*;
use crate::network::address;
use crate::network::address::{Ipv4Addr, Ipv6Addr};
use crate::text;
use crate::text::{chars_of, parse_unsigned, string_of, take_before, trim_start_text};

verus! {

/// The configuration of the control plane.
#[derive(Debug)]
pub struct Config {
    /// Address and port.
    pub addr: String,
    pub xline_config: XlineConfig,
    pub network_config: NetworkConfig,
    pub tls_config: TLSConfig,
    pub dns_config: DnsConfig,
}

/// How the store is reached.
#[derive(Debug)]
pub struct XlineConfig {
    pub endpoints: Vec<String>,
    pub prefix: String,
    pub username: Option<String>,
    pub password: Option<String>,
    pub subnet_lease_renew_margin: Option<i64>,
}

/// The network of the pods, as it is stored.
#[derive(Debug)]
pub struct NetworkConfig {
    pub network: String,
    pub subnet_min: String,
    pub subnet_max: String,
    pub subnet_len: u8,
}

#[derive(Debug)]
pub struct TLSConfig {
    pub enable: bool,
    pub vault_folder: String,
    pub keep_dangerous_files: bool,
}

#[derive(Debug, Clone, Copy, PartialEq, Eq, Structural)]
pub struct DnsConfig {
    pub port: u16,
}

/// The folder of the vault when none is configured.
pub fn default_vault_folder() -> (r: String)
    ensures
        r@ == "./backend"@,
{
    "./backend".to_owned()
}

/// An address of one kind or the other.
#[derive(Debug)]
pub enum Either {
    Left(String),
    Right(String),
}

/// The part of an address that may be an IP address and a port: without the scheme.
pub open spec fn without_scheme(addr: Seq<char>) -> Seq<char> {
    text::drop_prefixes(text::drop_prefixes(addr, "http://"@), "https://"@)
}

/// The part of an address that may be an IP address and a port: without the scheme.
pub fn socket_text(addr: &str) -> (r: String)
    ensures
        r@ == without_scheme(addr@),
{
    proof {
        reveal_strlit("http://");
        reveal_strlit("https://");
    }
    let s = trim_start_text(addr, "http://");
    trim_start_text(s.as_str(), "https://")
}

/// The position of the last colon below `n`, or -1.
pub open spec fn last_colon(s: Seq<char>, n: int) -> int
    decreases n,
{
    if n <= 0 {
        -1
    } else if s[n - 1] == ':' {
        n - 1
    } else {
        last_colon(s, n - 1)
    }
}

/// What stands before the last colon; all of it when there is none.
pub open spec fn host_part(s: Seq<char>) -> Seq<char> {
    let i = last_colon(s, s.len() as int);
    if i >= 0 {
        s.take(i)
    } else {
        s
    }
}

/// Whether there is a colon, and the position of the last one.
fn find_last_colon(v: &Vec<char>) -> (r: (bool, usize))
    ensures
        r.0 ==> r.1 < v@.len() && r.1 == last_colon(v@, v@.len() as int),
        !r.0 ==> last_colon(v@, v@.len() as int) == -1,
{
    let mut n: usize = v.len();
    while n > 0
        invariant
            n <= v@.len(),
            last_colon(v@, v@.len() as int) == last_colon(v@, n as int),
        decreases n,
    {
        if v[n - 1] == ':' {
            return (true, n - 1);
        }
        n = n - 1;
    }
    (false, 0)
}

fn host_of(addr: &str) -> (r: String)
    ensures
        r@ == host_part(addr@),
{
    let v = chars_of(addr);
    let (found, i) = find_last_colon(&v);
    if found {
        let r = string_of(&v, 0, i);
        assert(r@ =~= v@.take(i as int));
        r
    } else {
        addr.to_owned()
    }
}

/// Whether the text is a number of digits alone, up to a limit.
pub open spec fn is_number(s: Seq<char>, limit: int) -> bool {
    text::all_digits(s) && text::digits_value(s) <= limit
}

fn holds_number(s: &str, limit: u64) -> (r: bool)
    requires
        limit <= 0xffff_ffff,
    ensures
        r == is_number(s@, limit as int),
{
    let v = chars_of(s);
    if v.len() > 0 && v[0] == '+' {
        assert(!text::is_digit(s@[0]));
        return false;
    }
    parse_unsigned(s, limit).is_some()
}

/// The IPv6 address of a text, which a percent sign and the number of a scope may follow, as
/// text.
pub open spec fn scoped_ip(s: Seq<char>) -> Option<Seq<char>> {
    let a = text::before_char(s, '%');
    match address::ipv6_of(a) {
        Some(ip) => if a.len() == s.len() || is_number(s.skip(a.len() as int + 1), 0xffff_ffff) {
            Some(address::ipv6_text(ip.bits))
        } else {
            None
        },
        None => None,
    }
}

/// The IP address of a text that is an IP address, a colon and a port, as text. An IPv6 address
/// stands in square brackets.
pub open spec fn socket_ip(s: Seq<char>) -> Option<Seq<char>> {
    let i = last_colon(s, s.len() as int);
    if i < 0 || !is_number(s.skip(i + 1), 0xffff) {
        None
    } else if i >= 2 && s[0] == '[' && s[i - 1] == ']' {
        scoped_ip(s.subrange(1, i - 1))
    } else {
        match address::ipv4_of(s.take(i)) {
            Some(ip) => Some(address::ipv4_text(ip)),
            None => None,
        }
    }
}

fn parse_scoped_ip(s: &str) -> (r: Option<String>)
    ensures
        text::opt_text(r) == scoped_ip(s@),
{
    let v = chars_of(s);
    let at = text::find_char(&v, '%', 0);
    let a = string_of(&v, 0, at);
    assert(a@ =~= text::before_char(s@, '%'));
    let ip = Ipv6Addr::parse(a.as_str())?;
    if at < v.len() {
        let scope = string_of(&v, at + 1, v.len());
        assert(scope@ =~= s@.skip(at + 1));
        if !holds_number(scope.as_str(), 0xffff_ffff) {
            return None;
        }
    }
    Some(ip.to_text())
}

fn parse_socket_ip(s: &str) -> (r: Option<String>)
    ensures
        text::opt_text(r) == socket_ip(s@),
{
    let v = chars_of(s);
    let (found, i) = find_last_colon(&v);
    if !found {
        return None;
    }
    let port = string_of(&v, i + 1, v.len());
    assert(port@ =~= s@.skip(i + 1));
    if !holds_number(port.as_str(), 0xffff) {
        return None;
    }
    if i >= 2 && v[0] == '[' && v[i - 1] == ']' {
        let inner = string_of(&v, 1, i - 1);
        parse_scoped_ip(inner.as_str())
    } else {
        let host = string_of(&v, 0, i);
        assert(host@ =~= s@.take(i as int));
        match Ipv4Addr::parse(host.as_str()) {
            Some(ip) => Some(ip.to_text()),
            None => None,
        }
    }
}

/// The IP address of an address, where it is an IP address and a port behind the scheme, or the
/// host that it names.
pub fn ip_or_dns(addr: &str) -> (r: Either)
    ensures
        match socket_ip(without_scheme(addr@)) {
            Some(ip) => r matches Either::Left(t) && t@ == ip,
            None => r matches Either::Right(host) && host@ == host_part(addr@),
        },
{
    match parse_socket_ip(socket_text(addr).as_str()) {
        Some(ip) => Either::Left(ip),
        None => Either::Right(host_of(addr)),
    }
}

/// The alternative names and the IP addresses that a certificate for an address is issued for.
pub open spec fn sans_of(addr: Seq<char>) -> (Option<Seq<char>>, Option<Seq<char>>) {
    match socket_ip(without_scheme(addr)) {
        Some(ip) => (None, Some(ip)),
        None => (Some(host_part(addr)), None),
    }
}

/// The alternative names and the IP addresses that a certificate is issued for.
pub fn to_alt_names_and_ip_sans(ip_or_dns: Either) -> (r: (Option<String>, Option<String>))
    ensures
        r == match ip_or_dns {
            Either::Left(ip) => (None, Some(ip)),
            Either::Right(host) => (Some(host), None),
        },
{
    match ip_or_dns {
        Either::Left(ip) => (None, Some(ip)),
        Either::Right(host) => (Some(host), None),
    }
}

/// The alternative names and the IP addresses of the control plane's own certificate.
pub fn local_alt_names_and_ip_sans(cfg: &Config) -> (r: (Option<String>, Option<String>))
    ensures
        (text::opt_text(r.0), text::opt_text(r.1)) == sans_of(cfg.addr@),
{
    to_alt_names_and_ip_sans(ip_or_dns(cfg.addr.as_str()))
}

/// The address that DNS traffic is sent to: the configured one up to the first colon.
pub fn dns_server_ip(cfg: &Config) -> (r: String)
    ensures
        r@ == text::before_char(cfg.addr@, ':'),
{
    take_before(cfg.addr.as_str(), ':')
}

/// The endpoints of the store: those of the options, or the configured ones when there are
/// none.
pub fn store_endpoints(cfg: &XlineConfig, options: &Vec<String>) -> (r: Vec<String>)
    ensures
        r@ == if options@.len() == 0 {
            cfg.endpoints@
        } else {
            options@
        },
{
    if options.len() == 0 {
        text::clone_texts(&cfg.endpoints)
    } else {
        text::clone_texts(options)
    }
}

/// The user and password to connect with, when both are configured.
pub fn store_user(cfg: &XlineConfig) -> (r: Option<(String, String)>)
    ensures
        r == match (cfg.username, cfg.password) {
            (Some(u), Some(p)) => Some((u, p)),
            _ => None,
        },
{
    match (&cfg.username, &cfg.password) {
        (Some(u), Some(p)) => Some((u.clone(), p.clone())),
        _ => None,
    }
}

/// A certificate is for an address or for a name, and for one of them only. Where the address of
/// the configuration is one, it is for the address.
pub proof fn law_certificate_is_for_an_address_or_a_name(
    cfg: Config,
    r: (Option<String>, Option<String>),
    kind: Either,
    addr: &str,
)
    requires
        call_ensures(local_alt_names_and_ip_sans, (&cfg,), r),
        addr@ == cfg.addr@,
        call_ensures(ip_or_dns, (addr,), kind),
    ensures
        r.0 is Some <==> r.1 is None,
        kind matches Either::Left(ip) ==> r.0 is None && (r.1 matches Some(t) && t@ == ip@),
        kind matches Either::Right(host) ==> r.1 is None && (r.0 matches Some(t) && t@ == host@),
        kind matches Either::Right(host) ==> host@.is_prefix_of(addr@),
{
    lemma_host_part(addr@);
}

proof fn lemma_host_part(s: Seq<char>)
    ensures
        host_part(s).is_prefix_of(s),
{
    lemma_last_colon(s, s.len() as int);
    let i = last_colon(s, s.len() as int);
    if i >= 0 {
        assert(s.subrange(0, i) =~= s.take(i));
    } else {
        assert(s.subrange(0, s.len() as int) =~= s);
    }
}

proof fn lemma_last_colon(s: Seq<char>, n: int)
    requires
        0 <= n <= s.len(),
    ensures
        -1 <= last_colon(s, n) < n,
    decreases n,
{
    if n > 0 && s[n - 1] != ':' {
        lemma_last_colon(s, n - 1);
    }
}

/// Endpoints that are given go before those of the configuration; a user needs a name and a
/// password.
pub proof fn law_given_endpoints_go_first(
    cfg: XlineConfig,
    options: Vec<String>,
    r: Vec<String>,
    user: Option<(String, String)>,
)
    requires
        call_ensures(store_endpoints, (&cfg, &options), r),
        call_ensures(store_user, (&cfg,), user),
    ensures
        options@.len() > 0 ==> r@ == options@,
        options@.len() == 0 ==> r@ == cfg.endpoints@,
        user is Some <==> cfg.username is Some && cfg.password is Some,
        user matches Some(u) ==> cfg.username == Some(u.0) && cfg.password == Some(u.1),
{
}

} // verus!

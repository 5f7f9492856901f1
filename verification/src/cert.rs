//! Connections that are secured with certificates from a vault.
use vstd::prelude::*;
use crate::text;
use crate::text::{begins_with, concat2};
use crate::vault::IssueCertificateRequest;

verus! {

/// How long a certificate is good for.
pub fn default_ttl() -> (r: String)
    ensures
        r@ == "12h"@,
{
    "12h".to_owned()
}

/// How a server's connections are secured.
#[derive(Debug)]
pub struct TLSConnectionConfig {
    pub enable_tls: bool,
    pub vault_url: String,
    pub bootstrap_token: String,
}

/// The same as it is given on the command line.
#[derive(Debug)]
pub struct TLSConnectionArgs {
    pub enable_tls: bool,
    pub vault_url: String,
    pub bootstrap_token: String,
}

impl vstd::std_specs::convert::FromSpecImpl<TLSConnectionArgs> for TLSConnectionConfig {
    open spec fn obeys_from_spec() -> bool {
        true
    }

    open spec fn from_spec(value: TLSConnectionArgs) -> Self {
        TLSConnectionConfig {
            enable_tls: value.enable_tls,
            vault_url: value.vault_url,
            bootstrap_token: value.bootstrap_token,
        }
    }
}

impl From<TLSConnectionArgs> for TLSConnectionConfig {
    fn from(value: TLSConnectionArgs) -> (r: Self) {
        TLSConnectionConfig {
            enable_tls: value.enable_tls,
            vault_url: value.vault_url,
            bootstrap_token: value.bootstrap_token,
        }
    }
}

/// The URL of the vault: one without a scheme is reached by `http`.
pub open spec fn vault_address(url: Seq<char>) -> Seq<char> {
    if "http"@.is_prefix_of(url) {
        url
    } else {
        "http://"@ + url
    }
}

/// The certificate that a server asks its vault for, and where it asks.
#[derive(Debug)]
pub struct CertificateCall {
    pub vault_url: String,
    pub token: String,
    pub path: String,
    pub request: IssueCertificateRequest,
}

/// What a server asks for before it accepts connections; nothing where they are not secured.
pub fn build_quic_config(config: &TLSConnectionConfig) -> (r: Option<CertificateCall>)
    ensures
        r is Some == config.enable_tls,
        r matches Some(c) ==> {
            &&& c.vault_url@ == vault_address(config.vault_url@)
            &&& c.token@ == config.bootstrap_token@
            &&& c.path@ == "/v1/pki/issue/rks-node"@
            &&& text::opt_text(c.request.common_name) == Some("rks-cluster"@)
            &&& text::opt_text(c.request.alt_names) == Some("rks.svc.cluster.local"@)
            &&& text::opt_text(c.request.ip_sans) == Some("192.168.73.128,127.0.0.1"@)
            &&& text::opt_text(c.request.ttl) == Some("12h"@)
        },
{
    if !config.enable_tls {
        return None;
    }
    let vault_url = if begins_with(config.vault_url.as_str(), "http") {
        config.vault_url.clone()
    } else {
        concat2("http://", config.vault_url.as_str())
    };
    let request = IssueCertificateRequest {
        common_name: Some("rks-cluster".to_owned()),
        alt_names: Some("rks.svc.cluster.local".to_owned()),
        ip_sans: Some("192.168.73.128,127.0.0.1".to_owned()),
        ttl: Some(default_ttl()),
    };
    Some(
        CertificateCall {
            vault_url,
            token: config.bootstrap_token.clone(),
            path: "/v1/pki/issue/rks-node".to_owned(),
            request,
        },
    )
}

/// The certificates that clients are checked against: all but the server's own, which is first.
pub fn trust_roots_from_certs(certs: &Vec<Vec<u8>>) -> (r: Vec<Vec<u8>>)
    ensures
        r@.len() == if certs@.len() > 0 {
            certs@.len() - 1
        } else {
            0
        },
        forall|i: int| 0 <= i < r@.len() ==> (#[trigger] r@[i])@ == certs@[i + 1]@,
{
    let mut r: Vec<Vec<u8>> = Vec::new();
    let n: usize = certs.len();
    if n > 0 {
        for i in 1..n
            invariant
                n == certs@.len(),
                r@.len() == i - 1,
                forall|j: int| 0 <= j < i - 1 ==> (#[trigger] r@[j])@ == certs@[j + 1]@,
        {
            r.push(copy_bytes(&certs[i]));
        }
    }
    r
}

fn copy_bytes(v: &Vec<u8>) -> (r: Vec<u8>)
    ensures
        r@ == v@,
{
    let mut r: Vec<u8> = Vec::new();
    for i in 0..v.len()
        invariant
            r@ == v@.take(i as int),
    {
        r.push(v[i]);
        assert(v@.take(i + 1) =~= v@.take(i as int).push(v@[i as int]));
    }
    assert(v@.take(v@.len() as int) =~= v@);
    r
}

/// The vault is asked only for a secured connection, at its own address, with a scheme where it
/// has none; the first certificate of a chain is not trusted, and the others are.
pub proof fn law_vault_is_asked_for_secured_connections(
    config: TLSConnectionConfig,
    r: Option<CertificateCall>,
    certs: Vec<Vec<u8>>,
    roots: Vec<Vec<u8>>,
)
    requires
        call_ensures(build_quic_config, (&config,), r),
        call_ensures(trust_roots_from_certs, (&certs,), roots),
    ensures
        r is Some <==> config.enable_tls,
        r matches Some(c) ==> c.token@ == config.bootstrap_token@ && c.vault_url@ == if "http"@.is_prefix_of(
            config.vault_url@,
        ) {
            config.vault_url@
        } else {
            "http://"@ + config.vault_url@
        },
        certs@.len() == 0 ==> roots@.len() == 0,
        certs@.len() > 0 ==> roots@.len() == certs@.len() - 1,
        forall|i: int| 0 <= i < roots@.len() ==> (#[trigger] roots@[i])@ == certs@[i + 1]@,
{
}

} // verus!

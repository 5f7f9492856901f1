//! The certificate of the server that users and workers connect to.
use vstd::prelude::*;
use crate::text;
use crate::vault::{CertRole, IssueCertificateRequest};

verus! {

/// The name for which a server without secured connections signs its own certificate.
pub fn self_signed_name() -> (r: String)
    ensures
        r@ == "localhost"@,
{
    "localhost".to_owned()
}

/// What the server asks the vault for before it accepts connections; nothing where they are not
/// secured.
pub fn build_quic_config(tls_enabled: bool) -> (r: Option<(CertRole, IssueCertificateRequest)>)
    ensures
        r is Some == tls_enabled,
        r matches Some(c) ==> {
            &&& c.0 is Rks
            &&& text::opt_text(c.1.common_name) == Some("rks-cluster"@)
            &&& text::opt_text(c.1.alt_names) == Some("rks.svc.cluster.local,localhost"@)
            &&& text::opt_text(c.1.ip_sans) == Some("192.168.73.128,127.0.0.1"@)
            &&& text::opt_text(c.1.ttl) == Some("15s"@)
        },
{
    if !tls_enabled {
        return None;
    }
    let request = IssueCertificateRequest {
        common_name: Some("rks-cluster".to_owned()),
        alt_names: Some("rks.svc.cluster.local,localhost".to_owned()),
        ip_sans: Some("192.168.73.128,127.0.0.1".to_owned()),
        ttl: Some("15s".to_owned()),
    };
    Some((CertRole::Rks, request))
}

} // verus!

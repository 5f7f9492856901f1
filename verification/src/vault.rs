//! The cluster's vault: certificates and the credentials of registries.
use vstd::prelude::*;
use crate::clock::now_nanos;
use crate::json;
use crate::json::{read_list, write_list};
use crate::protocol::config;
use crate::protocol::config::{
    ip_or_dns, local_alt_names_and_ip_sans, socket_text, to_alt_names_and_ip_sans, Config,
};
use crate::text;
use crate::text::{bytes_of, concat2, concat3, concat4, contains_text, replace_text, trim, trim_end_char};

verus! {

/// Whom a certificate is for.
#[derive(Debug, Clone, Copy, PartialEq, Eq, Structural)]
pub enum CertRole {
    Rks,
    Rkl,
    Xline,
}

/// The name of a role.
pub open spec fn role_name(role: CertRole) -> Seq<char> {
    match role {
        CertRole::Rks => "rks"@,
        CertRole::Rkl => "rkl"@,
        CertRole::Xline => "xline"@,
    }
}

impl CertRole {
    /// The name of the role.
    pub fn name(self) -> (r: String)
        ensures
            r@ == role_name(self),
    {
        match self {
            CertRole::Rks => "rks".to_owned(),
            CertRole::Rkl => "rkl".to_owned(),
            CertRole::Xline => "xline".to_owned(),
        }
    }
}

/// What a certificate is asked for with.
#[derive(Debug)]
pub struct IssueCertificateRequest {
    pub common_name: Option<String>,
    pub alt_names: Option<String>,
    pub ip_sans: Option<String>,
    pub ttl: Option<String>,
}

/// What the certificates of a role may be.
#[derive(Debug)]
pub struct RolePolicy {
    pub key_type: String,
    pub key_bits: u32,
    pub allow_ip_sans: bool,
    pub allowed_domains: String,
    pub allow_subdomains: bool,
    pub server_flag: bool,
    pub client_flag: bool,
    pub ttl: String,
    pub max_ttl: String,
    pub no_store: bool,
    pub generate_lease: bool,
}

/// What the cluster's root certificate is generated with.
#[derive(Debug)]
pub struct RootCaRequest {
    pub common_name: String,
    pub alt_names: String,
    pub ttl: String,
    pub not_before_duration: u32,
    pub organization: String,
    pub country: String,
    pub province: String,
    pub locality: String,
    pub exported: String,
    pub key_type: String,
    pub key_bits: u32,
    pub signature_bits: u32,
    pub use_pss: bool,
    pub permitted_dns_domains: String,
    pub max_path_length: u32,
}

/// What a token that can be used once is created with.
#[derive(Debug)]
pub struct TokenRequest {
    pub policies: Vec<String>,
    pub display_name: String,
    pub num_uses: u32,
}

/// The token with which a registry is accessed.
#[derive(Debug)]
pub struct RegistryCredential {
    pub registry: String,
    pub pat: String,
}

/// The texts that the vault holds at the path of a credential.
#[derive(Debug)]
pub struct CredentialData {
    pub pat: Option<String>,
    pub registry: Option<String>,
}

/// An open vault: the token that grants everything.
#[derive(Debug)]
pub struct Vault {
    pub root_token: String,
}

/// The parts into which the key of the vault is split.
pub const SECRET_SHARES: u8 = 5;

/// The parts that are needed to open the vault.
pub const SECRET_THRESHOLD: u8 = 3;

/// The text of bytes in base64.
pub uninterp spec fn base64_text(b: Seq<u8>) -> Seq<char>;

/// The bytes that a base64 text stands for.
pub uninterp spec fn base64_bytes(t: Seq<char>) -> Option<Seq<u8>>;

/// `base64::engine::general_purpose::STANDARD.encode`: the text depends on the bytes alone, and
/// decoding it gives the bytes back.
#[verifier::external_body]
fn encode_base64(b: &[u8]) -> (r: String)
    requires
        b@.len() <= 0x1000_0000,
    ensures
        r@ == base64_text(b@),
        base64_bytes(r@) == Some(b@),
{
    base64::Engine::encode(&base64::engine::general_purpose::STANDARD, b)
}

/// The contents of a list of bytes.
pub open spec fn opt_bytes(o: Option<Vec<u8>>) -> Option<Seq<u8>> {
    match o {
        Some(v) => Some(v@),
        None => None,
    }
}

/// `base64::engine::general_purpose::STANDARD.decode`: the result depends on the text alone.
#[verifier::external_body]
fn decode_base64(t: &str) -> (r: Option<Vec<u8>>)
    ensures
        opt_bytes(r) == base64_bytes(t@),
{
    base64::Engine::decode(&base64::engine::general_purpose::STANDARD, t).ok()
}

/// The certificates in a PEM text, in order; nothing where one of them cannot be extracted.
pub uninterp spec fn pem_certificates(pem: Seq<u8>) -> Option<Seq<Seq<u8>>>;

/// The contents of lists of bytes.
pub open spec fn byte_lists(v: Seq<Vec<u8>>) -> Seq<Seq<u8>> {
    v.map_values(|x: Vec<u8>| x@)
}

/// The contents of lists of bytes, if there are any.
pub open spec fn opt_byte_lists(o: Option<Vec<Vec<u8>>>) -> Option<Seq<Seq<u8>>> {
    match o {
        Some(v) => Some(byte_lists(v@)),
        None => None,
    }
}

/// `rustls_pemfile::certs`: the result depends on the text alone.
#[verifier::external_body]
fn read_pem_certificates(pem: &[u8]) -> (r: Option<Vec<Vec<u8>>>)
    ensures
        opt_byte_lists(r) == pem_certificates(pem@),
{
    let mut reader = std::io::Cursor::new(pem);
    let certs = rustls_pemfile::certs(&mut reader).collect::<std::io::Result<Vec<_>>>().ok()?;
    Some(certs.iter().map(|c| c.as_ref().to_vec()).collect())
}

/// The end of the validity of a certificate in DER, in nanoseconds since the epoch; for bytes that
/// are no certificate, why not.
pub uninterp spec fn certificate_end(der: Seq<u8>) -> Result<i128, Seq<char>>;

/// `x509_parser::prelude::X509Certificate::from_der` and the end of the `validity`: the result
/// depends on the bytes alone.
#[verifier::external_body]
fn read_certificate_end(der: &[u8]) -> (r: Result<i128, String>)
    ensures
        match r {
            Ok(t) => certificate_end(der@) == Ok::<i128, Seq<char>>(t),
            Err(e) => certificate_end(der@) == Err::<i128, Seq<char>>(e@),
        },
{
    let (_, cert) = x509_parser::parse_x509_certificate(der).map_err(|e| e.to_string())?;
    Ok(cert.validity().not_after.to_datetime().unix_timestamp_nanos())
}

impl Vault {
    /// Where the policy of a role is written, and the policy.
    pub fn write_policy(cert: CertRole) -> (r: (String, RolePolicy))
        ensures
            r.0@ == "pki/roles/"@ + role_name(cert) + "-node"@,
            r.1.key_type@ == "ec"@,
            r.1.key_bits == 256,
            r.1.allow_ip_sans,
            r.1.allowed_domains@ == role_name(cert) + ".svc.cluster.local"@,
            r.1.allow_subdomains,
            r.1.server_flag,
            r.1.client_flag,
            r.1.ttl@ == "180d"@,
            r.1.max_ttl@ == "360d"@,
            !r.1.no_store,
            !r.1.generate_lease,
    {
        let name = cert.name();
        let policy = RolePolicy {
            key_type: "ec".to_owned(),
            key_bits: 256,
            allow_ip_sans: true,
            allowed_domains: concat2(name.as_str(), ".svc.cluster.local"),
            allow_subdomains: true,
            server_flag: true,
            client_flag: true,
            ttl: "180d".to_owned(),
            max_ttl: "360d".to_owned(),
            no_store: false,
            generate_lease: false,
        };
        (concat3("pki/roles/", name.as_str(), "-node"), policy)
    }
}

impl Vault {
    /// The roles whose policies are written, in order.
    pub fn write_policies() -> (r: Vec<CertRole>)
        ensures
            r@ == seq![CertRole::Rks, CertRole::Rkl, CertRole::Xline],
    {
        let mut r: Vec<CertRole> = Vec::new();
        r.push(CertRole::Rks);
        r.push(CertRole::Rkl);
        r.push(CertRole::Xline);
        assert(r@ =~= seq![CertRole::Rks, CertRole::Rkl, CertRole::Xline]);
        r
    }
}

impl Vault {
    /// Where the cluster's root certificate is generated, and with what.
    pub fn generate_root_ca() -> (r: (String, RootCaRequest))
        ensures
            r.0@ == "pki/root/generate/exported"@,
            r.1.common_name@ == "rk8s root CA"@,
            r.1.alt_names@ == "rk8s.github.io"@,
            r.1.ttl@ == "87600h"@,
            r.1.not_before_duration == 30,
            r.1.organization@ == "rk8s organization"@,
            r.1.country@ == "CN"@,
            r.1.province@ == "ZJ"@,
            r.1.locality@ == "HangZhou"@,
            r.1.exported@ == "exported"@,
            r.1.key_type@ == "ec"@,
            r.1.key_bits == 256,
            r.1.signature_bits == 384,
            !r.1.use_pss,
            r.1.permitted_dns_domains@
                == "rkl.svc.cluster.local,rks.svc.cluster.local,xline.svc.cluster.local,vault.svc.cluster.local"@,
            r.1.max_path_length == 1,
    {
        let request = RootCaRequest {
            common_name: "rk8s root CA".to_owned(),
            alt_names: "rk8s.github.io".to_owned(),
            ttl: "87600h".to_owned(),
            not_before_duration: 30,
            organization: "rk8s organization".to_owned(),
            country: "CN".to_owned(),
            province: "ZJ".to_owned(),
            locality: "HangZhou".to_owned(),
            exported: "exported".to_owned(),
            key_type: "ec".to_owned(),
            key_bits: 256,
            signature_bits: 384,
            use_pss: false,
            permitted_dns_domains: "rkl.svc.cluster.local,rks.svc.cluster.local,xline.svc.cluster.local,vault.svc.cluster.local".to_owned(),
            max_path_length: 1,
        };
        ("pki/root/generate/exported".to_owned(), request)
    }
}

/// The texts of a vault's answer on the root certificate. Its fields are `None` where they are
/// missing or no texts.
#[derive(Debug)]
pub struct RootCaData {
    pub certificate: Option<String>,
    pub private_key: Option<String>,
}

/// The files to write for the root certificate, each with its text.
pub fn root_ca_files(data: Option<RootCaData>) -> (r: Result<Vec<(String, String)>, String>)
    ensures
        match r {
            Ok(files) => {
                &&& data matches Some(d) && d.certificate matches Some(c)
                    && d.private_key matches Some(k)
                    && files@.len() == 2 && files@[0].0@ == "root.pem"@ && files@[0].1 == c
                    && files@[1].0@ == "root.key"@ && files@[1].1 == k
            },
            Err(e) => match data {
                None => e@ == "Failed to get data from vault request"@,
                Some(d) => if d.certificate is None {
                    e@ == "Failed to get cert pem from vault response"@
                } else {
                    d.private_key is None && e@
                        == "Failed to get private key of root ca from vault response"@
                },
            },
        },
{
    let d = match data {
        Some(d) => d,
        None => {
            return Err("Failed to get data from vault request".to_owned());
        },
    };
    let cert = match d.certificate {
        Some(c) => c,
        None => {
            return Err("Failed to get cert pem from vault response".to_owned());
        },
    };
    let key = match d.private_key {
        Some(k) => k,
        None => {
            return Err("Failed to get private key of root ca from vault response".to_owned());
        },
    };
    let mut files: Vec<(String, String)> = Vec::new();
    files.push(("root.pem".to_owned(), cert));
    files.push(("root.key".to_owned(), key));
    Ok(files)
}

/// The texts under which the parts of the vault's key are stored.
pub fn encode_keys(secrets: &Vec<Vec<u8>>) -> (r: Vec<String>)
    requires
        forall|i: int| 0 <= i < secrets@.len() ==> (#[trigger] secrets@[i])@.len() <= 0x1000_0000,
    ensures
        r@.len() == secrets@.len(),
        forall|i: int|
            0 <= i < r@.len() ==> (#[trigger] r@[i])@ == base64_text(secrets@[i]@) && base64_bytes(
                r@[i]@,
            ) == Some(secrets@[i]@),
{
    let mut r: Vec<String> = Vec::new();
    for i in 0..secrets.len()
        invariant
            forall|i: int|
                0 <= i < secrets@.len() ==> (#[trigger] secrets@[i])@.len() <= 0x1000_0000,
            r@.len() == i,
            forall|j: int|
                0 <= j < i ==> (#[trigger] r@[j])@ == base64_text(secrets@[j]@) && base64_bytes(
                    r@[j]@,
                ) == Some(secrets@[j]@),
    {
        assert(secrets@[i as int]@.len() <= 0x1000_0000);
        r.push(encode_base64(secrets[i].as_slice()));
    }
    r
}

/// The name under which the parts of the vault's key are listed.
pub const KEYS_NAME: &'static str = "keys";

/// The document with the parts of the vault's key.
pub fn keys_document(secrets: &Vec<Vec<u8>>) -> (r: Option<String>)
    requires
        forall|i: int| 0 <= i < secrets@.len() ==> (#[trigger] secrets@[i])@.len() <= 0x1000_0000,
    ensures
        text::opt_text(r) == Some(
            json::list_document(KEYS_NAME@, byte_lists(secrets@).map_values(|b: Seq<u8>| base64_text(b))),
        ),
        holds_parts(r->0@, byte_lists(secrets@)),
{
    let keys = encode_keys(secrets);
    let r = write_list(KEYS_NAME, &keys);
    proof {
        let parts = byte_lists(secrets@);
        assert(text::texts(keys@) =~= parts.map_values(|b: Seq<u8>| base64_text(b)));
        let list = json::json_list(r->0@, KEYS_NAME@)->Ok_0->0;
        assert forall|i: int| 0 <= i < parts.len() implies part_in(#[trigger] texts_of(list)[i])
            == Some(parts[i]) by {
            assert(list[i].1 == Some(text::texts(keys@)[i]));
            assert(text::texts(keys@)[i] == keys@[i]@);
        }
    }
    r
}

/// Why the parts of the vault's key cannot be read.
#[derive(Debug, PartialEq, Eq)]
pub enum KeysError {
    /// The document is not JSON, and why.
    NotJson(String),
    /// There is no list of keys.
    Missing,
    /// A key is no base64 text.
    Malformed,
}

/// The text of an error.
pub open spec fn keys_error_text(e: KeysError) -> Seq<char> {
    match e {
        KeysError::NotJson(m) => m@,
        KeysError::Missing => "keys.json doesn't contain a key named with `keys`"@,
        KeysError::Malformed => "keys.json contains a key that is no base64 text"@,
    }
}

impl KeysError {
    /// The error as it is reported.
    pub fn message(&self) -> (r: String)
        ensures
            r@ == keys_error_text(*self),
    {
        match self {
            KeysError::NotJson(m) => m.clone(),
            KeysError::Missing => "keys.json doesn't contain a key named with `keys`".to_owned(),
            KeysError::Malformed => "keys.json contains a key that is no base64 text".to_owned(),
        }
    }
}

/// The texts of the items of a list, of those that are texts.
pub open spec fn texts_of(list: Seq<(Seq<char>, Option<Seq<char>>)>) -> Seq<Option<Seq<char>>> {
    list.map_values(|i: (Seq<char>, Option<Seq<char>>)| i.1)
}

/// The part of the key that an item of the list stands for.
pub open spec fn part_in(o: Option<Seq<char>>) -> Option<Seq<u8>> {
    match o {
        Some(t) => base64_bytes(t),
        None => None,
    }
}

/// Whether a result is what a list of keys stands for.
pub open spec fn are_parts(
    keys: Seq<Option<Seq<char>>>,
    r: Result<Vec<Vec<u8>>, KeysError>,
) -> bool {
    match r {
        Ok(v) => v@.len() == keys.len() && forall|i: int|
            0 <= i < v@.len() ==> part_in(keys[i]) == Some((#[trigger] v@[i])@),
        Err(e) => e is Malformed && exists|i: int|
            0 <= i < keys.len() && part_in(#[trigger] keys[i]) is None,
    }
}

/// Whether a document lists the parts of a key.
pub open spec fn holds_parts(document: Seq<char>, parts: Seq<Seq<u8>>) -> bool {
    json::json_list(document, KEYS_NAME@) matches Ok(list) && (list matches Some(l) && l.len()
        == parts.len() && forall|i: int|
        0 <= i < parts.len() ==> part_in(#[trigger] texts_of(l)[i]) == Some(parts[i]))
}

/// The parts of the vault's key from the items of the list in which they are stored: each as the
/// text that it is, if it is one.
pub fn decode_keys(keys: &Vec<Option<String>>) -> (r: Result<Vec<Vec<u8>>, KeysError>)
    ensures
        are_parts(keys@.map_values(|k: Option<String>| text::opt_text(k)), r),
{
    let ghost all = keys@.map_values(|k: Option<String>| text::opt_text(k));
    let mut out: Vec<Vec<u8>> = Vec::new();
    for i in 0..keys.len()
        invariant
            all == keys@.map_values(|k: Option<String>| text::opt_text(k)),
            out@.len() == i,
            forall|j: int| 0 <= j < i ==> part_in(all[j]) == Some((#[trigger] out@[j])@),
    {
        assert(all[i as int] == text::opt_text(keys@[i as int]));
        let part = match &keys[i] {
            Some(t) => decode_base64(t.as_str()),
            None => None,
        };
        match part {
            Some(b) => {
                out.push(b);
            },
            None => {
                assert(part_in(all[i as int]) is None);
                return Err(KeysError::Malformed);
            },
        }
    }
    Ok(out)
}

/// Whether a result is what a document with the parts of the vault's key stands for.
pub open spec fn is_extracted(
    list: Result<Option<Seq<(Seq<char>, Option<Seq<char>>)>>, Seq<char>>,
    r: Result<Vec<Vec<u8>>, KeysError>,
) -> bool {
    match list {
        Err(e) => r matches Err(KeysError::NotJson(m)) && m@ == e,
        Ok(None) => r matches Err(KeysError::Missing),
        Ok(Some(l)) => are_parts(texts_of(l), r),
    }
}

/// The parts of the vault's key from the document in which they are stored.
pub fn extract_keys(document: &str) -> (r: Result<Vec<Vec<u8>>, KeysError>)
    ensures
        is_extracted(json::json_list(document@, "keys"@), r),
{
    match read_list(document, KEYS_NAME) {
        Err(e) => Err(KeysError::NotJson(e)),
        Ok(None) => Err(KeysError::Missing),
        Ok(Some(items)) => {
            let ghost all = json::items_view(items@);
            let mut keys: Vec<Option<String>> = Vec::new();
            for i in 0..items.len()
                invariant
                    keys@.len() == i,
                    forall|j: int| 0 <= j < i ==> #[trigger] keys@[j] == items@[j].1,
            {
                keys.push(text::opt_clone(&items[i].1));
            }
            assert(keys@.map_values(|k: Option<String>| text::opt_text(k)) =~= texts_of(all)) by {
                assert forall|i: int| 0 <= i < keys@.len() implies text::opt_text(keys@[i])
                    == texts_of(all)[i] by {
                    assert(keys@[i] == items@[i].1);
                }
            }
            decode_keys(&keys)
        },
    }
}

/// The parts of the key that a document was written with are read back from it.
pub proof fn law_stored_keys_are_read_back(
    document: Seq<char>,
    parts: Seq<Seq<u8>>,
    r: Result<Vec<Vec<u8>>, KeysError>,
)
    requires
        holds_parts(document, parts),
        is_extracted(json::json_list(document, KEYS_NAME@), r),
    ensures
        r matches Ok(v) && byte_lists(v@) == parts,
{
    let l = json::json_list(document, KEYS_NAME@)->Ok_0->0;
    assert(texts_of(l).len() == parts.len());
    if let Ok(v) = r {
        assert forall|i: int| 0 <= i < parts.len() implies byte_lists(v@)[i] == parts[i] by {
            assert(part_in(texts_of(l)[i]) == Some(v@[i]@));
        }
        assert(byte_lists(v@) =~= parts);
    }
}

/// The folder for the certificates of a store.
pub open spec fn store_folder(addr: Seq<char>) -> Seq<char> {
    "xline-"@ + text::replaced(config::without_scheme(addr), ":"@, "-"@)
}

impl Vault {
    /// The folder for the certificates of a store, and what its certificate is asked for with.
    pub fn write_certs_for_xlines(addr: &str) -> (r: (String, IssueCertificateRequest))
        ensures
            r.0@ == store_folder(addr@),
            text::opt_text(r.1.common_name) == Some("xline-cluster"@),
            text::opt_text(r.1.ttl) == Some("180d"@),
            (text::opt_text(r.1.alt_names), text::opt_text(r.1.ip_sans)) == config::sans_of(addr@),
    {
        let (alt_names, ip_sans) = to_alt_names_and_ip_sans(ip_or_dns(addr));
        let request = IssueCertificateRequest {
            common_name: Some("xline-cluster".to_owned()),
            alt_names,
            ip_sans,
            ttl: Some("180d".to_owned()),
        };
        proof {
            reveal_strlit(":");
        }
        let safe = replace_text(socket_text(addr).as_str(), ":", "-");
        (concat2("xline-", safe.as_str()), request)
    }
}

impl Vault {
    /// Where a token that can be used once is created, and with what.
    pub fn generate_once_token() -> (r: (String, TokenRequest))
        ensures
            r.0@ == "auth/token/create"@,
            text::texts(r.1.policies@) == seq!["default"@],
            r.1.display_name@ == "one-shot"@,
            r.1.num_uses == 1,
    {
        let mut policies: Vec<String> = Vec::new();
        policies.push("default".to_owned());
        assert(text::texts(policies@) =~= seq!["default"@]);
        let request = TokenRequest { policies, display_name: "one-shot".to_owned(), num_uses: 1 };
        ("auth/token/create".to_owned(), request)
    }
}

/// The token that the vault created.
pub fn created_token(token: Option<String>) -> (r: Result<String, String>)
    ensures
        match r {
            Ok(t) => token == Some(t),
            Err(e) => token is None && e@ == "Failed to generate token"@,
        },
{
    match token {
        Some(t) => Ok(t),
        None => Err("Failed to generate token".to_owned()),
    }
}

impl Vault {
    /// Whether the vault knows a token.
    pub fn validate_token(known: bool) -> (r: Result<(), String>)
        ensures
            match r {
                Ok(_) => known,
                Err(e) => !known && e@ == "The token is valid"@,
            },
    {
        if known {
            Ok(())
        } else {
            Err("The token is valid".to_owned())
        }
    }
}

/// The path of a registry's credential.
pub open spec fn credential_path(registry: Seq<char>) -> Seq<char> {
    "secret/registry/"@ + registry
}

/// The path of a registry's credential.
pub fn registry_path(registry: &str) -> (r: String)
    ensures
        r@ == credential_path(registry@),
{
    concat2("secret/registry/", registry)
}

/// The path under which all credentials lie.
pub fn registries_path() -> (r: String)
    ensures
        r@ == "secret/registry/"@,
{
    "secret/registry/".to_owned()
}

/// The texts of a credential in the vault.
pub struct CredentialDataView {
    pub pat: Option<Seq<char>>,
    pub registry: Option<Seq<char>>,
}

impl View for CredentialData {
    type V = CredentialDataView;

    open spec fn view(&self) -> CredentialDataView {
        CredentialDataView {
            pat: text::opt_text(self.pat),
            registry: text::opt_text(self.registry),
        }
    }
}

/// What is stored for the credential of a registry.
pub open spec fn stored_credential(registry: Seq<char>, pat: Seq<char>) -> CredentialDataView {
    CredentialDataView { pat: Some(pat), registry: Some(registry) }
}

impl Vault {
    /// Where the credential of a registry is stored, and what is stored.
    pub fn store_registry_credential(registry: &str, pat: &str) -> (r: (String, CredentialData))
        ensures
            r.0@ == credential_path(registry@),
            r.1@ == stored_credential(registry@, pat@),
    {
        let data = CredentialData { pat: Some(pat.to_owned()), registry: Some(registry.to_owned()) };
        (registry_path(registry), data)
    }
}

/// The error of a credential that could not be stored.
pub fn store_failed(registry: &str) -> (r: String)
    ensures
        r@ == "Failed to store credential for registry "@ + registry@,
{
    concat2("Failed to store credential for registry ", registry)
}

/// The error of a credential that could not be deleted.
pub fn delete_failed(registry: &str) -> (r: String)
    ensures
        r@ == "Failed to delete credential for registry "@ + registry@,
{
    concat2("Failed to delete credential for registry ", registry)
}

/// The registry and the token of a credential.
pub open spec fn opt_credential(o: Option<RegistryCredential>) -> Option<(Seq<char>, Seq<char>)> {
    match o {
        Some(c) => Some((c.registry@, c.pat@)),
        None => None,
    }
}

/// The credential in what the vault holds for a registry: none without a token that is more than
/// white space. The registry is the one asked for when none is noted.
pub open spec fn credential_in(registry: Seq<char>, data: CredentialDataView) -> Option<
    (Seq<char>, Seq<char>),
> {
    match data.pat {
        Some(p) => if text::trimmed(p).len() > 0 {
            Some(
                (
                    match data.registry {
                        Some(noted) => noted,
                        None => registry,
                    },
                    text::trimmed(p),
                ),
            )
        } else {
            None
        },
        None => None,
    }
}

impl Vault {
    /// The credential of a registry from what reading its path brought: nothing, or the texts
    /// there.
    pub fn get_registry_credential(
        registry: &str,
        read: Result<Option<CredentialData>, String>,
    ) -> (r: Result<Option<RegistryCredential>, String>)
        ensures
            match (read, r) {
                (Ok(None), Ok(c)) => c is None,
                (Ok(Some(data)), Ok(c)) => opt_credential(c) == credential_in(registry@, data@),
                (Err(e), Err(t)) => t@ == "failed to read registry credential at '"@ + credential_path(
                    registry@,
                ) + "': "@ + e@,
                _ => false,
            },
    {
        match read {
            Ok(None) => Ok(None),
            Ok(Some(data)) => {
                let pat = match &data.pat {
                    Some(p) => trim(p.as_str()),
                    None => {
                        return Ok(None);
                    },
                };
                if pat.as_str().is_empty() {
                    return Ok(None);
                }
                let noted = match data.registry {
                    Some(n) => n,
                    None => registry.to_owned(),
                };
                Ok(Some(RegistryCredential { registry: noted, pat }))
            },
            Err(e) => Err(
                concat4(
                    "failed to read registry credential at '",
                    registry_path(registry).as_str(),
                    "': ",
                    e.as_str(),
                ),
            ),
        }
    }
}

/// The registries that a listing names, without the slashes behind them; `keys` is what the
/// listing brought.
pub fn listed_registries(keys: Result<Option<Vec<String>>, String>) -> (r: Result<
    Vec<String>,
    String,
>)
    ensures
        match (keys, r) {
            (Ok(None), Ok(v)) => v@.len() == 0,
            (Ok(Some(k)), Ok(v)) => v@.len() == k@.len() && forall|i: int|
                0 <= i < v@.len() ==> (#[trigger] v@[i])@ == text::drop_trailing(
                    k@[i]@,
                    text::only('/'),
                ),
            (Err(e), Err(t)) => t@ == "failed to list registry credential keys from vault: "@ + e@,
            _ => false,
        },
{
    match keys {
        Ok(None) => Ok(Vec::new()),
        Ok(Some(k)) => {
            let mut v: Vec<String> = Vec::new();
            for i in 0..k.len()
                invariant
                    v@.len() == i,
                    forall|j: int|
                        0 <= j < i ==> (#[trigger] v@[j])@ == text::drop_trailing(
                            k@[j]@,
                            text::only('/'),
                        ),
            {
                v.push(trim_end_char(k[i].as_str(), '/'));
            }
            Ok(v)
        },
        Err(e) => Err(
            concat2("failed to list registry credential keys from vault: ", e.as_str()),
        ),
    }
}

/// The credentials among what reading each registry brought: those that could be read and hold a
/// token, in order.
pub open spec fn valid_credentials(
    reads: Seq<Result<Option<RegistryCredential>, String>>,
) -> Seq<RegistryCredential>
    decreases reads.len(),
{
    if reads.len() == 0 {
        Seq::empty()
    } else {
        let before = valid_credentials(reads.drop_last());
        match reads.last() {
            Ok(Some(c)) => before.push(c),
            _ => before,
        }
    }
}

impl Vault {
    /// The stored credentials, from what reading each listed registry brought. Those that cannot be
    /// read or hold no token are left out.
    pub fn list_registry_credentials(reads: Vec<Result<Option<RegistryCredential>, String>>) -> (r: Vec<
        RegistryCredential,
    >)
        ensures
            r@ == valid_credentials(reads@),
    {
        let mut r: Vec<RegistryCredential> = Vec::new();
        assert(reads@.take(0) =~= Seq::empty());
        for i in 0..reads.len()
            invariant
                r@ == valid_credentials(reads@.take(i as int)),
        {
            if let Ok(Some(c)) = &reads[i] {
                r.push(RegistryCredential { registry: c.registry.clone(), pat: c.pat.clone() });
            }
            assert(reads@.take(i + 1).drop_last() =~= reads@.take(i as int));
        }
        assert(reads@.take(reads@.len() as int) =~= reads@);
        r
    }
}

impl Vault {
    /// Where a certificate of a role is issued.
    pub fn issue_cert(role: CertRole) -> (r: String)
        ensures
            r@ == "pki/issue/"@ + role_name(role) + "-node"@,
    {
        concat3("pki/issue/", role.name().as_str(), "-node")
    }
}

impl Vault {
    /// What the certificate of the control plane is asked for with.
    pub fn issue_rks_cert(cfg: &Config) -> (r: IssueCertificateRequest)
        ensures
            text::opt_text(r.common_name) == Some("rks-node"@),
            text::opt_text(r.ttl) == Some("180d"@),
            (text::opt_text(r.alt_names), text::opt_text(r.ip_sans)) == config::sans_of(cfg.addr@),
    {
        let (alt_names, ip_sans) = local_alt_names_and_ip_sans(cfg);
        IssueCertificateRequest {
            common_name: Some("rks-node".to_owned()),
            alt_names,
            ip_sans,
            ttl: Some("180d".to_owned()),
        }
    }
}

/// Whether a folder for the vault is configured.
pub fn check_vault_folder(folder: &str) -> (r: Result<(), String>)
    ensures
        match r {
            Ok(_) => folder@.len() > 0,
            Err(e) => folder@.len() == 0 && e@
                == "vault_folder is empty in config. Set tls_config.vault_folder and run `rks gen certs` first."@,
        },
{
    if folder.is_empty() {
        Err(
            "vault_folder is empty in config. Set tls_config.vault_folder and run `rks gen certs` first.".to_owned(),
        )
    } else {
        Ok(())
    }
}

/// The error of a folder without readable keys.
pub fn keys_unreadable(folder: &str) -> (r: String)
    ensures
        r@ == "Cannot read "@ + folder@ + "/keys.json. Run `rks gen certs <config>` first."@,
{
    concat3("Cannot read ", folder, "/keys.json. Run `rks gen certs <config>` first.")
}

/// Where the vault keeps what it holds.
#[derive(Debug, Clone, Copy, PartialEq, Eq, Structural)]
pub enum VaultBackend {
    File,
    Xline,
}

impl Vault {
    /// Where the vault is opened: in the store when connections are secured, and otherwise in
    /// files.
    pub fn open(tls_enabled: bool) -> (r: VaultBackend)
        ensures
            r == if tls_enabled {
                VaultBackend::Xline
            } else {
                VaultBackend::File
            },
    {
        if tls_enabled {
            VaultBackend::Xline
        } else {
            VaultBackend::File
        }
    }
}

/// Whether a vault that could not be opened in the store is to be moved there from its files: it
/// was not initialized.
pub fn should_migrate(error: &str) -> (r: bool)
    ensures
        r == text::occurs(error@, "not initialized"@),
{
    contains_text(error, "not initialized")
}

/// The error of a vault in the store that was never set up, which leads to a migration.
pub fn not_initialized() -> (r: String)
    ensures
        r@ == "xline-backed vault is not initialized"@,
        text::occurs(r@, "not initialized"@),
{
    proof {
        reveal_strlit("xline-backed vault is not initialized");
        reveal_strlit("not initialized");
        let s = "xline-backed vault is not initialized"@;
        let pat = "not initialized"@;
        assert(s.subrange(22, 22 + pat.len() as int) =~= pat);
    }
    "xline-backed vault is not initialized".to_owned()
}

/// Why the end of a cached certificate is not known.
#[derive(Debug, PartialEq, Eq)]
pub enum IdentityError {
    /// The text is no PEM chain.
    Pem,
    /// The text holds no certificate.
    Empty,
    /// The first certificate cannot be read, and why.
    Unreadable(String),
}

/// The text of an error.
pub open spec fn identity_error_text(e: IdentityError) -> Seq<char> {
    match e {
        IdentityError::Pem => "Failed to extract cached rks client certificate from PEM chain"@,
        IdentityError::Empty => "No valid certs found in cached rks client certificate"@,
        IdentityError::Unreadable(m) => "Failed to parse cached rks client certificate: "@ + m@,
    }
}

impl IdentityError {
    /// The error as it is reported.
    pub fn message(&self) -> (r: String)
        ensures
            r@ == identity_error_text(*self),
    {
        match self {
            IdentityError::Pem => {
                "Failed to extract cached rks client certificate from PEM chain".to_owned()
            },
            IdentityError::Empty => {
                "No valid certs found in cached rks client certificate".to_owned()
            },
            IdentityError::Unreadable(m) => {
                concat2("Failed to parse cached rks client certificate: ", m.as_str())
            },
        }
    }
}

/// When the first of the certificates ends, in nanoseconds since the epoch, or the text of the
/// error.
pub open spec fn first_end(certs: Option<Seq<Seq<u8>>>) -> Result<i128, Seq<char>> {
    match certs {
        None => Err(identity_error_text(IdentityError::Pem)),
        Some(c) => if c.len() == 0 {
            Err(identity_error_text(IdentityError::Empty))
        } else {
            match certificate_end(c[0]) {
                Ok(t) => Ok(t),
                Err(m) => Err("Failed to parse cached rks client certificate: "@ + m),
            }
        },
    }
}

/// When the first certificate of a PEM text ends, in nanoseconds since the epoch, or the text of
/// the error.
pub open spec fn identity_end(pem: Seq<char>) -> Result<i128, Seq<char>> {
    first_end(pem_certificates(vstd::utf8::encode_utf8(pem)))
}

/// When the first certificate of a PEM text ends, in nanoseconds since the epoch.
pub fn cached_identity_end(cert_pem: &str) -> (r: Result<i128, IdentityError>)
    ensures
        match r {
            Ok(end) => identity_end(cert_pem@) == Ok::<i128, Seq<char>>(end),
            Err(e) => identity_end(cert_pem@) == Err::<i128, Seq<char>>(identity_error_text(e)),
        },
{
    let bytes = bytes_of(cert_pem);
    let certs = match read_pem_certificates(bytes.as_slice()) {
        Some(c) => c,
        None => {
            return Err(IdentityError::Pem);
        },
    };
    if certs.len() == 0 {
        return Err(IdentityError::Empty);
    }
    assert(byte_lists(certs@)[0] == certs@[0]@);
    match read_certificate_end(certs[0].as_slice()) {
        Ok(t) => Ok(t),
        Err(m) => Err(IdentityError::Unreadable(m)),
    }
}

/// Whether a certificate is to be issued anew at an instant: it has ended by then.
pub open spec fn expired(end: i128, now: i128) -> bool {
    end <= now
}

/// Whether a cached certificate is to be issued anew at an instant.
pub fn identity_needs_refresh_at(cert_pem: &str, now: i128) -> (r: Result<bool, IdentityError>)
    ensures
        match r {
            Ok(refresh) => identity_end(cert_pem@) matches Ok(end) && refresh == expired(end, now),
            Err(e) => identity_end(cert_pem@) == Err::<i128, Seq<char>>(identity_error_text(e)),
        },
{
    match cached_identity_end(cert_pem) {
        Ok(end) => Ok(end <= now),
        Err(e) => Err(e),
    }
}

impl Vault {
    /// Whether a cached certificate is to be issued anew now.
    pub fn cached_rks_client_identity_needs_refresh(cert_pem: &str) -> (r: Result<bool, IdentityError>)
        ensures
            match r {
                Ok(refresh) => identity_end(cert_pem@) matches Ok(end) && exists|now: i128|
                    refresh == #[trigger] expired(end, now),
                Err(e) => identity_end(cert_pem@) == Err::<i128, Seq<char>>(identity_error_text(e)),
            },
    {
        let now = now_nanos();
        let r = identity_needs_refresh_at(cert_pem, now);
        assert(r matches Ok(refresh) ==> refresh == expired(identity_end(cert_pem@)->Ok_0, now));
        r
    }
}

impl Vault {
    /// The file of the control plane's certificate.
    pub fn rks_client_cert_path() -> (r: String)
        ensures
            r@ == "rks-client.pem"@,
    {
        "rks-client.pem".to_owned()
    }
}

impl Vault {
    /// The file of the control plane's key.
    pub fn rks_client_key_path() -> (r: String)
        ensures
            r@ == "rks-client.key"@,
    {
        "rks-client.key".to_owned()
    }
}

impl Vault {
    /// Whether the cached certificate of the control plane stays: both files are there, and the
    /// certificate could be read and has not ended. `refresh` says whether it has, where it could
    /// be read.
    pub fn ensure_rks_client_identity(
        cert_exists: bool,
        key_exists: bool,
        refresh: Option<Result<bool, IdentityError>>,
    ) -> (r: bool)
        ensures
            r == (cert_exists && key_exists && refresh == Some(Ok::<bool, IdentityError>(false))),
    {
        if cert_exists && key_exists {
            match refresh {
                Some(Ok(expired)) => !expired,
                _ => false,
            }
        } else {
            false
        }
    }
}

proof fn lemma_paths_differ(a: Seq<char>, b: Seq<char>)
    requires
        a != b,
    ensures
        credential_path(a) != credential_path(b),
{
    let n = "secret/registry/"@.len() as int;
    assert(credential_path(a).skip(n) =~= a);
    assert(credential_path(b).skip(n) =~= b);
}

/// What a vault holds after a credential is stored.
pub open spec fn vault_with(
    m: Map<Seq<char>, CredentialDataView>,
    registry: Seq<char>,
    pat: Seq<char>,
) -> Map<Seq<char>, CredentialDataView> {
    m.insert(credential_path(registry), stored_credential(registry, pat))
}

/// What a vault holds after a credential is deleted.
pub open spec fn vault_without(
    m: Map<Seq<char>, CredentialDataView>,
    registry: Seq<char>,
) -> Map<Seq<char>, CredentialDataView> {
    m.remove(credential_path(registry))
}

/// The credential that a vault has for a registry.
pub open spec fn credential_at(
    m: Map<Seq<char>, CredentialDataView>,
    registry: Seq<char>,
) -> Option<(Seq<char>, Seq<char>)> {
    if m.contains_key(credential_path(registry)) {
        credential_in(registry, m[credential_path(registry)])
    } else {
        None
    }
}

/// A stored credential is read back, up to white space around the token, whatever was stored for
/// the registry before. The credentials of other registries stay as they are.
pub proof fn law_stored_credential_is_read_back(
    m: Map<Seq<char>, CredentialDataView>,
    registry: Seq<char>,
    pat: Seq<char>,
    other: Seq<char>,
)
    requires
        text::trimmed(pat).len() > 0,
        other != registry,
    ensures
        credential_at(vault_with(m, registry, pat), registry) == Some(
            (registry, text::trimmed(pat)),
        ),
        credential_at(vault_with(m, registry, pat), other) == credential_at(m, other),
{
    lemma_paths_differ(registry, other);
}

/// A deleted credential is gone. The credentials of other registries stay as they are.
pub proof fn law_deleted_credential_is_gone(
    m: Map<Seq<char>, CredentialDataView>,
    registry: Seq<char>,
    other: Seq<char>,
)
    requires
        other != registry,
    ensures
        credential_at(vault_without(m, registry), registry) is None,
        credential_at(vault_without(m, registry), other) == credential_at(m, other),
{
    lemma_paths_differ(registry, other);
}

/// A credential that is stored is read back from the same place as it was given, without white
/// space around the token.
pub proof fn law_written_credential_is_read_back(
    registry: &str,
    pat: &str,
    written: (String, CredentialData),
    r: Result<Option<RegistryCredential>, String>,
)
    requires
        call_ensures(Vault::store_registry_credential, (registry, pat), written),
        call_ensures(
            Vault::get_registry_credential,
            (registry, Ok::<Option<CredentialData>, String>(Some(written.1))),
            r,
        ),
    ensures
        written.0@ == "secret/registry/"@ + registry@,
        r is Ok,
        text::trimmed(pat@).len() == 0 ==> r->Ok_0 is None,
        text::trimmed(pat@).len() > 0 ==> (r->Ok_0 matches Some(c) && c.registry@ == registry@
            && c.pat@ == text::trimmed(pat@)),
{
}

/// A registry without a credential has none, and one that cannot be read is an error.
pub proof fn law_missing_credential_is_none(
    registry: &str,
    e: String,
    none: Result<Option<RegistryCredential>, String>,
    failed: Result<Option<RegistryCredential>, String>,
)
    requires
        call_ensures(
            Vault::get_registry_credential,
            (registry, Ok::<Option<CredentialData>, String>(None)),
            none,
        ),
        call_ensures(
            Vault::get_registry_credential,
            (registry, Err::<Option<CredentialData>, String>(e)),
            failed,
        ),
    ensures
        none is Ok && none->Ok_0 is None,
        failed is Err,
{
}

proof fn lemma_valid_credentials(reads: Seq<Result<Option<RegistryCredential>, String>>)
    ensures
        valid_credentials(reads).len() <= reads.len(),
        forall|c: RegistryCredential| #[trigger]
            valid_credentials(reads).contains(c) <==> reads.contains(
                Ok::<Option<RegistryCredential>, String>(Some(c)),
            ),
    decreases reads.len(),
{
    if reads.len() > 0 {
        let less = reads.drop_last();
        lemma_valid_credentials(less);
        let v = valid_credentials(reads);
        let w = valid_credentials(less);
        assert(reads =~= less.push(reads.last()));
        assert forall|c: RegistryCredential| #[trigger] v.contains(c) <==> reads.contains(
            Ok::<Option<RegistryCredential>, String>(Some(c)),
        ) by {
            let x = Ok::<Option<RegistryCredential>, String>(Some(c));
            if v.contains(c) {
                let i = choose|i: int| 0 <= i < v.len() && v[i] == c;
                if i < w.len() {
                    assert(w[i] == c);
                    assert(w.contains(c));
                    let k = choose|k: int| 0 <= k < less.len() && less[k] == x;
                    assert(reads[k] == x);
                } else {
                    assert(reads[reads.len() - 1] == x);
                }
            }
            if reads.contains(x) {
                let k = choose|k: int| 0 <= k < reads.len() && reads[k] == x;
                if k < less.len() {
                    assert(less[k] == x);
                    assert(w.contains(c));
                    let i = choose|i: int| 0 <= i < w.len() && w[i] == c;
                    assert(v[i] == c);
                } else {
                    assert(v[v.len() - 1] == c);
                }
            }
        }
    } else {
        assert forall|c: RegistryCredential| #[trigger]
            valid_credentials(reads).contains(c) <==> reads.contains(
                Ok::<Option<RegistryCredential>, String>(Some(c)),
            ) by {}
    }
}

/// The credentials that could be read are listed, and no others.
pub proof fn law_readable_credentials_are_listed(
    reads: Vec<Result<Option<RegistryCredential>, String>>,
    r: Vec<RegistryCredential>,
)
    requires
        call_ensures(Vault::list_registry_credentials, (reads,), r),
    ensures
        forall|c: RegistryCredential| #[trigger]
            r@.contains(c) <==> reads@.contains(Ok::<Option<RegistryCredential>, String>(Some(c))),
{
    lemma_valid_credentials(reads@);
}

/// A certificate is refreshed once its end has come, and only then.
pub proof fn law_ended_certificate_is_refreshed(
    pem: &str,
    end: i128,
    now: i128,
    r: Result<bool, IdentityError>,
)
    requires
        call_ensures(cached_identity_end, (pem,), Ok::<i128, IdentityError>(end)),
        call_ensures(identity_needs_refresh_at, (pem, now), r),
    ensures
        r == Ok::<bool, IdentityError>(now >= end),
{
}

/// Parts that are written as keys are read back as they were.
pub proof fn law_written_parts_are_read_back(
    parts: Vec<Vec<u8>>,
    document: Option<String>,
    t: &str,
    r: Result<Vec<Vec<u8>>, KeysError>,
)
    requires
        call_ensures(keys_document, (&parts,), document),
        document is Some,
        t@ == document->0@,
        call_ensures(extract_keys, (t,), r),
    ensures
        r matches Ok(v) && v@.len() == parts@.len() && forall|i: int|
            0 <= i < v@.len() ==> (#[trigger] v@[i])@ == parts@[i]@,
{
    let list = json::json_list(t@, "keys"@)->Ok_0->0;
    assert(holds_parts(t@, byte_lists(parts@)));
    assert(texts_of(list).len() == list.len());
    assert forall|i: int| 0 <= i < parts@.len() implies part_in(#[trigger] texts_of(list)[i]) == Some(
        parts@[i]@,
    ) by {
        assert(byte_lists(parts@)[i] == parts@[i]@);
    }
    if let Err(e) = r {
        let i = choose|i: int|
            0 <= i < texts_of(list).len() && part_in(#[trigger] texts_of(list)[i]) is None;
        assert(false);
    }
    if let Ok(v) = r {
        assert forall|i: int| 0 <= i < v@.len() implies (#[trigger] v@[i])@ == parts@[i]@ by {
            assert(part_in(texts_of(list)[i]) == Some(v@[i]@));
        }
    }
}

/// Each role has its own name, its own certificates, and its own domain.
pub proof fn law_roles_are_told_apart(
    a: CertRole,
    b: CertRole,
    p: (String, RolePolicy),
    q: (String, RolePolicy),
    x: String,
)
    requires
        call_ensures(Vault::write_policy, (a,), p),
        call_ensures(Vault::write_policy, (b,), q),
        call_ensures(Vault::issue_cert, (a,), x),
    ensures
        p.0@ == q.0@ ==> a == b,
        a == CertRole::Rks ==> x@ == "pki/issue/"@ + "rks"@ + "-node"@,
        a == CertRole::Rkl ==> x@ == "pki/issue/"@ + "rkl"@ + "-node"@,
        a == CertRole::Xline ==> x@ == "pki/issue/"@ + "xline"@ + "-node"@,
        a == CertRole::Rks ==> p.1.allowed_domains@ == "rks"@ + ".svc.cluster.local"@,
        a == CertRole::Rkl ==> p.1.allowed_domains@ == "rkl"@ + ".svc.cluster.local"@,
        a == CertRole::Xline ==> p.1.allowed_domains@ == "xline"@ + ".svc.cluster.local"@,
{
    reveal_strlit("rks");
    reveal_strlit("rkl");
    reveal_strlit("xline");
    if p.0@ == q.0@ {
        let n = "pki/roles/"@.len() as int;
        assert(p.0@[n + 2] == role_name(a)[2]);
        assert(q.0@[n + 2] == role_name(b)[2]);
    }
}

} // verus!

use rcgen::{Certificate, CertificateParams};
use rks::cert::{build_quic_config, trust_roots_from_certs, TLSConnectionArgs, TLSConnectionConfig};
use rks::cli::{mask_token, ConfigCommand, GenCommand, GenStep};
use rks::protocol::config::{
    dns_server_ip, ip_or_dns, local_alt_names_and_ip_sans, store_endpoints, store_user, Config,
    DnsConfig, Either,
    NetworkConfig, TLSConfig, XlineConfig,
};
use rks::vault::{
    cached_identity_end, check_vault_folder, created_token, decode_keys, encode_keys, extract_keys,
    keys_document,
    identity_needs_refresh_at, keys_unreadable, listed_registries, not_initialized, root_ca_files,
    should_migrate, CertRole, CredentialData, IdentityError, KeysError, RegistryCredential,
    RootCaData, Vault, VaultBackend,
};
use std::collections::BTreeMap;
use time::{Duration, OffsetDateTime};

/// What a vault holds, by path.
struct Store {
    data: BTreeMap<String, (Option<String>, Option<String>)>,
    readable: bool,
}

impl Store {
    fn new() -> Store {
        Store { data: BTreeMap::new(), readable: true }
    }

    fn store(&mut self, registry: &str, pat: &str) {
        let (path, data) = Vault::store_registry_credential(registry, pat);
        self.data.insert(path, (data.pat, data.registry));
    }

    fn get(&self, registry: &str) -> Result<Option<RegistryCredential>, String> {
        let (path, _) = Vault::store_registry_credential(registry, "");
        let read = if self.readable {
            Ok(self.data.get(&path).map(|(pat, registry)| CredentialData {
                pat: pat.clone(),
                registry: registry.clone(),
            }))
        } else {
            Err("permission denied".to_string())
        };
        Vault::get_registry_credential(registry, read)
    }

    fn list(&self) -> Vec<RegistryCredential> {
        let keys: Vec<String> = self
            .data
            .keys()
            .map(|k| k.strip_prefix("secret/registry/").unwrap().to_string())
            .collect();
        let keys = if keys.is_empty() { None } else { Some(keys) };
        let registries = listed_registries(Ok(keys)).unwrap();
        Vault::list_registry_credentials(registries.iter().map(|r| self.get(r)).collect())
    }
}

#[test]
fn test_store_and_get_registry_credential() {
    let mut vault = Store::new();
    vault.store("libra.tools", "test-token-123");

    let cred = vault.get("libra.tools").unwrap().expect("credential should exist");
    assert_eq!(cred.registry, "libra.tools");
    assert_eq!(cred.pat, "test-token-123");
}

#[test]
fn test_list_registry_credentials() {
    let mut vault = Store::new();
    vault.store("libra.tools", "token1");
    vault.store("other.registry.io", "token2");

    let creds = vault.list();
    assert_eq!(creds.len(), 2);

    let registries: Vec<&str> = creds.iter().map(|c| c.registry.as_str()).collect();
    assert!(registries.contains(&"libra.tools"));
    assert!(registries.contains(&"other.registry.io"));
}

#[test]
fn test_delete_registry_credential() {
    let mut vault = Store::new();
    vault.store("libra.tools", "token");
    let (path, _) = Vault::store_registry_credential("libra.tools", "token");
    vault.data.remove(&path);

    let cred = vault.get("libra.tools").unwrap();
    assert!(cred.is_none(), "credential should be deleted");
}

#[test]
fn test_list_empty_credentials() {
    let vault = Store::new();
    assert!(vault.list().is_empty());
}

#[test]
fn test_overwrite_registry_credential() {
    let mut vault = Store::new();
    vault.store("libra.tools", "old-token");
    vault.store("libra.tools", "new-token");

    let cred = vault.get("libra.tools").unwrap().expect("credential should exist");
    assert_eq!(cred.pat, "new-token");
    assert_eq!(vault.list().len(), 1);
}

#[test]
fn test_get_registry_credential_surfaces_backend_read_errors() {
    let mut vault = Store::new();
    vault.store("libra.tools", "token");
    vault.readable = false;

    let err = vault.get("libra.tools").unwrap_err();
    assert!(
        err.contains("failed to read registry credential at 'secret/registry/libra.tools'"),
        "unexpected error: {err}"
    );
}

#[test]
fn test_list_registry_credentials_skips_invalid_entry() {
    let mut vault = Store::new();
    vault.store("libra.tools", "token");
    vault.data.insert(
        "secret/registry/bad.registry".to_string(),
        (None, Some("bad.registry".to_string())),
    );

    let creds = vault.list();
    assert_eq!(
        creds.len(),
        1,
        "should skip the invalid entry and return only the valid one"
    );
    assert_eq!(creds[0].registry, "libra.tools");
}

fn issue_test_cert(not_before: OffsetDateTime, not_after: OffsetDateTime) -> String {
    let mut params = CertificateParams::new(vec!["rks-node".to_string()]);
    params.not_before = not_before;
    params.not_after = not_after;
    Certificate::from_params(params).unwrap().serialize_pem().unwrap()
}

#[test]
fn cached_rks_client_identity_stays_when_certificate_is_valid() {
    let now = OffsetDateTime::now_utc();
    let cert_pem = issue_test_cert(now - Duration::days(1), now + Duration::days(30));

    assert!(!Vault::cached_rks_client_identity_needs_refresh(&cert_pem).unwrap());
}

#[test]
fn cached_rks_client_identity_refreshes_when_certificate_is_expired() {
    let now = OffsetDateTime::now_utc();
    let cert_pem = issue_test_cert(now - Duration::days(30), now - Duration::days(1));

    assert!(Vault::cached_rks_client_identity_needs_refresh(&cert_pem).unwrap());
}

#[test]
fn identity_ends_when_its_certificate_does() {
    let end = OffsetDateTime::from_unix_timestamp(1_900_000_000).unwrap();
    let pem = issue_test_cert(end - Duration::days(1), end);
    let nanos = 1_900_000_000_000_000_000i128;
    assert_eq!(cached_identity_end(&pem), Ok(nanos));
    assert_eq!(identity_needs_refresh_at(&pem, nanos - 1), Ok(false));
    assert_eq!(identity_needs_refresh_at(&pem, nanos), Ok(true));
    assert_eq!(identity_needs_refresh_at("", nanos), Err(IdentityError::Empty));
    assert_eq!(
        cached_identity_end("-----BEGIN CERTIFICATE-----\n!\n-----END CERTIFICATE-----\n"),
        Err(IdentityError::Pem)
    );
    assert_eq!(
        cached_identity_end("-----BEGIN CERTIFICATE-----\nAAAA\n-----END CERTIFICATE-----\n"),
        Err(IdentityError::Unreadable(
            "Parsing Error: Der(UnexpectedTag { expected: Some(Tag(16)), actual: Tag(0) })".to_string()
        ))
    );
    assert_eq!(
        IdentityError::Empty.message(),
        "No valid certs found in cached rks client certificate"
    );
}

#[test]
fn identity_is_reused_only_when_it_is_good() {
    assert!(Vault::ensure_rks_client_identity(true, true, Some(Ok(false))));
    assert!(!Vault::ensure_rks_client_identity(true, true, Some(Ok(true))));
    assert!(!Vault::ensure_rks_client_identity(true, true, Some(Err(IdentityError::Pem))));
    assert!(!Vault::ensure_rks_client_identity(true, true, None));
    assert!(!Vault::ensure_rks_client_identity(true, false, Some(Ok(false))));
}

#[test]
fn keys_are_read_back() {
    let secrets = vec![vec![1u8, 2, 3], vec![255u8; 33], vec![]];
    let keys = encode_keys(&secrets);
    assert_eq!(keys[0], "AQID");
    let document = keys_document(&secrets).unwrap();
    let long = "/".repeat(44);
    assert_eq!(
        document,
        format!("{{\n  \"keys\": [\n    \"AQID\",\n    \"{long}\",\n    \"\"\n  ]\n}}")
    );
    assert_eq!(extract_keys(&document).unwrap(), secrets);
    assert_eq!(extract_keys("{\"keys\": []}").unwrap(), Vec::<Vec<u8>>::new());
    for none in ["{}", "[]", "{\"keys\": \"AQID\"}", "{\"Keys\": []}"] {
        assert!(matches!(extract_keys(none), Err(KeysError::Missing)), "{none}");
    }
    for bad in ["{\"keys\": [\"AQID\", \"!\"]}", "{\"keys\": [\"AQID\", 3]}"] {
        assert!(matches!(extract_keys(bad), Err(KeysError::Malformed)), "{bad}");
    }
    match extract_keys("keys") {
        Err(KeysError::NotJson(m)) => assert!(m.starts_with("expected value"), "{m}"),
        other => panic!("{other:?}"),
    }
    let texts = |v: &[Option<&str>]| v.iter().map(|t| t.map(str::to_string)).collect();
    assert_eq!(decode_keys(&texts(&[Some("AQID")])).unwrap(), vec![vec![1u8, 2, 3]]);
    assert!(matches!(decode_keys(&texts(&[Some("AQID"), None])), Err(KeysError::Malformed)));
    assert_eq!(
        KeysError::Missing.message(),
        "keys.json doesn't contain a key named with `keys`"
    );
}

#[test]
fn roles_and_their_paths() {
    let (path, policy) = Vault::write_policy(CertRole::Xline);
    assert_eq!(path, "pki/roles/xline-node");
    assert_eq!(policy.allowed_domains, "xline.svc.cluster.local");
    assert_eq!((policy.key_bits, policy.ttl.as_str()), (256, "180d"));
    assert_eq!(Vault::issue_cert(CertRole::Rkl), "pki/issue/rkl-node");
    assert_eq!(Vault::write_policies(), vec![CertRole::Rks, CertRole::Rkl, CertRole::Xline]);
    let (path, ca) = Vault::generate_root_ca();
    assert_eq!(path, "pki/root/generate/exported");
    assert_eq!(ca.max_path_length, 1);
    let (path, token) = Vault::generate_once_token();
    assert_eq!((path.as_str(), token.num_uses), ("auth/token/create", 1));
}

#[test]
fn root_certificate_is_written_to_files() {
    let data = RootCaData { certificate: Some("c".to_string()), private_key: Some("k".to_string()) };
    assert_eq!(
        root_ca_files(Some(data)).unwrap(),
        vec![
            ("root.pem".to_string(), "c".to_string()),
            ("root.key".to_string(), "k".to_string())
        ]
    );
    assert_eq!(root_ca_files(None).unwrap_err(), "Failed to get data from vault request");
    assert_eq!(
        root_ca_files(Some(RootCaData { certificate: None, private_key: None })).unwrap_err(),
        "Failed to get cert pem from vault response"
    );
    assert_eq!(
        root_ca_files(Some(RootCaData { certificate: Some("c".to_string()), private_key: None }))
            .unwrap_err(),
        "Failed to get private key of root ca from vault response"
    );
}

#[test]
fn certificates_for_stores() {
    let (folder, req) = Vault::write_certs_for_xlines("http://10.0.0.1:2379");
    assert_eq!(folder, "xline-10.0.0.1-2379");
    assert_eq!((req.alt_names, req.ip_sans), (None, Some("10.0.0.1".to_string())));
    let (folder, req) = Vault::write_certs_for_xlines("https://store:2379");
    assert_eq!(folder, "xline-store-2379");
    assert_eq!((req.alt_names, req.ip_sans), (Some("https://store".to_string()), None));
}

fn config() -> Config {
    Config {
        addr: "cp.example:50051".to_string(),
        xline_config: XlineConfig {
            endpoints: vec![],
            prefix: "/coreos.com/network".to_string(),
            username: None,
            password: None,
            subnet_lease_renew_margin: None,
        },
        network_config: NetworkConfig {
            network: "10.0.0.0/16".to_string(),
            subnet_min: "10.0.1.0".to_string(),
            subnet_max: "10.0.254.0".to_string(),
            subnet_len: 24,
        },
        tls_config: TLSConfig {
            enable: true,
            vault_folder: "v".to_string(),
            keep_dangerous_files: false,
        },
        dns_config: DnsConfig { port: 53 },
    }
}

#[test]
fn certificate_of_the_control_plane() {
    let req = Vault::issue_rks_cert(&config());
    assert_eq!(req.common_name.as_deref(), Some("rks-node"));
    assert_eq!(req.alt_names.as_deref(), Some("cp.example"));
    assert_eq!(req.ip_sans, None);
    let mut c = config();
    c.addr = "1.2.3.4:50051".to_string();
    let req = Vault::issue_rks_cert(&c);
    assert_eq!((req.alt_names, req.ip_sans.as_deref()), (None, Some("1.2.3.4")));
}

#[test]
fn vault_is_opened_where_it_lies() {
    assert_eq!(Vault::open(true), VaultBackend::Xline);
    assert_eq!(Vault::open(false), VaultBackend::File);
    assert!(should_migrate(&not_initialized()));
    assert!(!should_migrate("connection refused"));
    assert!(check_vault_folder("x").is_ok());
    assert_eq!(
        check_vault_folder("").unwrap_err(),
        "vault_folder is empty in config. Set tls_config.vault_folder and run `rks gen certs` first."
    );
    assert_eq!(keys_unreadable("f"), "Cannot read f/keys.json. Run `rks gen certs <config>` first.");
    assert_eq!(created_token(None).unwrap_err(), "Failed to generate token");
    assert_eq!(created_token(Some("t".to_string())).unwrap(), "t");
    assert!(Vault::validate_token(true).is_ok());
    assert_eq!(Vault::validate_token(false).unwrap_err(), "The token is valid");
}

#[test]
fn credentials_are_trimmed_and_keep_the_noted_registry() {
    let read = |pat: Option<&str>, registry: Option<&str>| {
        Vault::get_registry_credential(
            "asked",
            Ok(Some(CredentialData {
                pat: pat.map(|s| s.to_string()),
                registry: registry.map(|s| s.to_string()),
            })),
        )
        .unwrap()
        .map(|c| (c.registry, c.pat))
    };
    assert_eq!(read(Some(" t "), None), Some(("asked".to_string(), "t".to_string())));
    assert_eq!(read(Some("t"), Some("noted")), Some(("noted".to_string(), "t".to_string())));
    assert_eq!(read(Some("  "), Some("noted")), None);
    assert_eq!(read(None, None), None);
    assert_eq!(
        listed_registries(Ok(Some(vec!["a/".to_string(), "b".to_string()]))).unwrap(),
        vec!["a", "b"]
    );
    assert_eq!(
        listed_registries(Err("x".to_string())).unwrap_err(),
        "failed to list registry credential keys from vault: x"
    );
}

#[test]
fn tokens_are_masked() {
    assert_eq!(mask_token("abcdefghi"), "abcd...fghi");
    assert_eq!(mask_token("abcdefgh"), "****");
    assert_eq!(mask_token("\u{e9}\u{e9}xx\u{e9}\u{e9}"), "\u{e9}\u{e9}...\u{e9}\u{e9}");
    let list = ConfigCommand::List { config: "c".to_string() };
    assert_eq!(list.handle(&vec![]), vec!["No configurations stored."]);
    let lines = list.handle(&vec![RegistryCredential {
        registry: "r.io".to_string(),
        pat: "short".to_string(),
    }]);
    assert_eq!(lines[0], "Registry Credentials:");
    assert_eq!(lines[1], format!("{:<40} TOKEN (masked)", "REGISTRY"));
    assert_eq!(lines[2], format!("{:<40} ****", "r.io"));
}

#[test]
fn generation_commands() {
    match (GenCommand::JoinToken { port: "6789".to_string() }).handle() {
        GenStep::Ask(url) => assert_eq!(url, "http://127.0.0.1:6789/join_token"),
        other => panic!("{other:?}"),
    }
    match (GenCommand::Certs { config: "c.yaml".to_string() }).handle() {
        GenStep::Certs(c) => assert_eq!(c, "c.yaml"),
        other => panic!("{other:?}"),
    }
}

#[test]
fn connections_ask_for_a_certificate() {
    let config = TLSConnectionConfig::from(TLSConnectionArgs {
        enable_tls: true,
        vault_url: "vault:8200".to_string(),
        bootstrap_token: "t".to_string(),
    });
    let call = build_quic_config(&config).unwrap();
    assert_eq!(call.vault_url, "http://vault:8200");
    assert_eq!(call.path, "/v1/pki/issue/rks-node");
    assert_eq!(call.request.ttl.as_deref(), Some("12h"));
    let off = TLSConnectionConfig { enable_tls: false, ..config };
    assert!(build_quic_config(&off).is_none());
    assert!(rks::node::cert::build_quic_config(false).is_none());
    let (role, req) = rks::node::cert::build_quic_config(true).unwrap();
    assert_eq!(role, CertRole::Rks);
    assert_eq!(req.ttl.as_deref(), Some("15s"));
    assert_eq!(trust_roots_from_certs(&vec![vec![1], vec![2], vec![3]]), vec![vec![2u8], vec![3]]);
    assert!(trust_roots_from_certs(&vec![]).is_empty());
}

/// The IP address of an address, or else its host.
fn told(addr: &str) -> Result<String, String> {
    match ip_or_dns(addr) {
        Either::Left(ip) => Ok(ip),
        Either::Right(host) => Err(host),
    }
}

#[test]
fn addresses_are_told_from_hosts() {
    assert_eq!(told("10.0.0.1:2379"), Ok("10.0.0.1".to_string()));
    assert_eq!(told("http://10.0.0.1:0065535"), Ok("10.0.0.1".to_string()));
    assert_eq!(told("https://[2001:DB8:0::1]:443"), Ok("2001:db8::1".to_string()));
    assert_eq!(told("[fe80::1%4294967295]:80"), Ok("fe80::1".to_string()));
    assert_eq!(told("10.0.0.1:65536"), Err("10.0.0.1".to_string()));
    assert_eq!(told("10.0.0.1:+80"), Err("10.0.0.1".to_string()));
    assert_eq!(told("10.0.0.1:"), Err("10.0.0.1".to_string()));
    assert_eq!(told("10.0.0.01:80"), Err("10.0.0.01".to_string()));
    assert_eq!(told("10.0.0.1"), Err("10.0.0.1".to_string()));
    assert_eq!(told("[fe80::1%4294967296]:80"), Err("[fe80::1%4294967296]".to_string()));
    assert_eq!(told("[fe80::1%]:80"), Err("[fe80::1%]".to_string()));
    assert_eq!(told("::1:80"), Err("::1".to_string()));
    assert_eq!(told("[10.0.0.1]:80"), Err("[10.0.0.1]".to_string()));
    assert_eq!(told("https://store"), Err("https".to_string()));
    assert_eq!(told("store"), Err("store".to_string()));
    assert_eq!(told("[::]:0"), Ok("::".to_string()));
    assert_eq!(told("[::ffff:1.2.3.4]:9"), Ok("::ffff:1.2.3.4".to_string()));
    assert_eq!(told("1.2.3.4:00000000000000000000000080"), Ok("1.2.3.4".to_string()));
    let hosts = [
        "1.2.3:4", "[::1]", "[]:1", "[:1", "]:1", "[1::2::3]:4", "1.2.3.4.5:6", " 1.2.3.4:5",
        "1.2.3.4:5 ", "[::1%%1]:2", "[::1/64]:2", ":1", ":", "", "256.1.1.1:1",
    ];
    for host in hosts {
        assert!(told(host).is_err(), "{host}");
    }
}

#[test]
fn configuration_tells_where_things_are() {
    let mut c = config();
    assert_eq!(dns_server_ip(&c), "cp.example");
    assert_eq!(local_alt_names_and_ip_sans(&c), (Some("cp.example".to_string()), None));
    c.xline_config.endpoints = vec!["a".to_string()];
    assert_eq!(store_endpoints(&c.xline_config, &vec![]), vec!["a"]);
    assert_eq!(store_endpoints(&c.xline_config, &vec!["b".to_string()]), vec!["b"]);
    assert_eq!(store_user(&c.xline_config), None);
    c.xline_config.username = Some("u".to_string());
    assert_eq!(store_user(&c.xline_config), None);
    c.xline_config.password = Some("p".to_string());
    assert_eq!(store_user(&c.xline_config), Some(("u".to_string(), "p".to_string())));
}

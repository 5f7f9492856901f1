use rks::login::{
    check_callback, exchange_failed, exchange_url, exchanged_registry, generate_state,
    generate_user_code, is_private_ip, login_url, normalize_registry_host, parse_server_url,
    state_text, user_code, ErrorBody,
};

#[test]
fn parse_server_url_uses_http_for_private_ipv6() {
    assert_eq!(parse_server_url("[::1]:7001").unwrap(), "http://[::1]:7001");
}

#[test]
fn parse_server_url_preserves_explicit_scheme() {
    assert_eq!(
        parse_server_url("https://example.com:7001").unwrap(),
        "https://example.com:7001"
    );
}

#[test]
fn server_url_gets_a_scheme() {
    assert_eq!(parse_server_url(" libra.tools/ ").unwrap(), "https://libra.tools");
    assert_eq!(parse_server_url("LocalHost:7001").unwrap(), "http://LocalHost:7001");
    assert_eq!(parse_server_url("10.1.2.3:80").unwrap(), "http://10.1.2.3:80");
    assert_eq!(parse_server_url("8.8.8.8:80").unwrap(), "https://8.8.8.8:80");
    assert_eq!(parse_server_url("http://a//").unwrap(), "http://a");
    assert_eq!(parse_server_url("  ").unwrap_err(), "server URL must not be empty");
}

#[test]
fn private_hosts() {
    for host in [
        "localhost", "127.0.0.1", "10.0.0.1", "172.16.0.1", "172.31.255.255", "192.168.1.1",
        "[::1]", " ::1 ", "fc00::1", "fdff::1",
    ] {
        assert!(is_private_ip(host), "{host}");
    }
    for host in ["172.32.0.1", "172.15.0.1", "192.169.0.1", "11.0.0.1", "fe80::1", "::2", "a", "::1/128"] {
        assert!(!is_private_ip(host), "{host}");
    }
}

#[test]
fn registry_hosts_are_normalized() {
    assert_eq!(normalize_registry_host(" HTTPS://x ").unwrap(), "https:");
    assert_eq!(normalize_registry_host(" https://Libra.Tools:443/a?b#c ").unwrap(), "libra.tools:443");
    assert_eq!(normalize_registry_host("http://a?b").unwrap(), "a");
    assert_eq!(normalize_registry_host("A#b").unwrap(), "a");
    assert_eq!(
        normalize_registry_host("https:///x").unwrap_err(),
        "registry host must not be empty"
    );
    let once = normalize_registry_host("https://Reg.Example/v2").unwrap();
    assert_eq!(normalize_registry_host(&once).unwrap(), once);
}

#[test]
fn user_codes_are_legible() {
    assert_eq!(user_code(&[0, 1, 2, 3, 31, 32, 33, 255]), "ABCD-9AB9");
    let code = generate_user_code();
    assert_eq!(code.len(), 9);
    assert_eq!(code.as_bytes()[4], b'-');
    assert!(!code.contains(|c: char| matches!(c, 'I' | 'O' | '0' | '1')));
}

#[test]
fn states_are_texts_for_urls() {
    let state = state_text(&[255u8; 32]);
    assert_eq!(state, "__________________________________________8");
    assert_ne!(state, state_text(&[254u8; 32]));
    assert_eq!(generate_state().len(), 43);
    assert_ne!(generate_state(), generate_state());
}

#[test]
fn login_goes_to_the_server_and_comes_back() {
    assert_eq!(
        login_url("http://a", "AAAA-BBBB", 4000, "s"),
        "http://a/api/cli/login?user_code=AAAA-BBBB&callback_port=4000&state=s"
    );
    assert_eq!(exchange_url("http://a/"), "http://a/api/cli/exchange");
    assert!(check_callback("s", "s").is_ok());
    assert_eq!(
        check_callback("s", "t").unwrap_err(),
        "State mismatch \u{2013} possible CSRF attack"
    );
}

#[test]
fn exchange_answers() {
    let body = ErrorBody { error: "denied".to_string(), message: "no".to_string() };
    assert_eq!(exchange_failed(Some(body)), "denied: no");
    assert_eq!(exchange_failed(None), "Exchange request failed");
    assert_eq!(
        exchanged_registry(&Some(" https://R.io/x ".to_string())).unwrap(),
        "r.io"
    );
    assert_eq!(
        exchanged_registry(&Some("  ".to_string())).unwrap_err(),
        "exchange response missing registry_url"
    );
    assert_eq!(
        exchanged_registry(&None).unwrap_err(),
        "exchange response missing registry_url"
    );
    assert_eq!(
        exchanged_registry(&Some("/x".to_string())).unwrap_err(),
        "registry host must not be empty"
    );
}

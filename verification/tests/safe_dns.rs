use mcpg_plugin_backend_net_core::safe_dns::{validate_resolved_address, ResolvedAddress};

fn address(ip: &str, is_private: bool) -> ResolvedAddress {
    ResolvedAddress { ip: ip.to_owned(), is_private }
}

#[test]
fn blocks_loopback() {
    let addr = address("127.0.0.1", true);
    assert!(validate_resolved_address(&addr, "evil.test", false, "").is_err());
}

#[test]
fn allows_loopback_when_private_ok() {
    let addr = address("127.0.0.1", true);
    assert!(validate_resolved_address(&addr, "evil.test", true, "").is_ok());
}

#[test]
fn allows_public() {
    let addr = address("93.184.216.34", false);
    assert!(validate_resolved_address(&addr, "example.com", false, "").is_ok());
}

#[test]
fn blocks_rfc1918() {
    for ip in ["10.0.0.1", "172.16.0.1", "192.168.1.1"] {
        let addr = address(ip, true);
        assert!(
            validate_resolved_address(&addr, "evil.test", false, "").is_err(),
            "{ip} should be blocked"
        );
    }
}

#[test]
fn blocks_cgnat() {
    let addr = address("100.64.0.1", true);
    assert!(validate_resolved_address(&addr, "evil.test", false, "").is_err());
}

#[test]
fn the_reason_names_host_and_address() {
    assert_eq!(
        validate_resolved_address(
            &address("10.0.0.1", true),
            "evil.test",
            false,
            "Private ranges: 10.0.0.0/8.",
        )
        .unwrap_err(),
        "DNS rebinding guard: host 'evil.test' resolved to private address 10.0.0.1 \
         (set server.allow_private_backends=true for container-network deployments). \
         Private ranges: 10.0.0.0/8."
    );
}

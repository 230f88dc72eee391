use std::time::Duration;

use mcpg_plugin_backend_net_core::client::{
    http_target, parsed_target, plan_http_client, select_address,
};
use mcpg_plugin_backend_net_core::safe_dns::{validate_resolved_address, ResolvedAddress};
use mcpg_plugin_backend_net_core::types::{HeaderTable, HttpBackendMethod, HttpRequestProfile};
use mcpg_plugin_backend_net_core::url::UrlParts;

fn addresses(list: &[(&str, bool)]) -> Vec<ResolvedAddress> {
    list.iter()
        .map(|(ip, is_private)| ResolvedAddress {
            ip: (*ip).to_owned(),
            is_private: *is_private,
        })
        .collect()
}

fn profile(method: HttpBackendMethod, allow_private_backends: bool) -> HttpRequestProfile {
    HttpRequestProfile {
        url: "https://api.test/".to_owned(),
        method,
        headers: HeaderTable::new(),
        expected_status_codes: vec![200],
        require_json_response: true,
        max_response_bytes: 1024,
        timeout: Duration::from_millis(1500),
        allow_private_backends,
    }
}

#[test]
fn targets_of_urls() {
    let target = http_target("https://user:pw@Api.Test/v1?x=1").unwrap();
    assert_eq!(target.host, "api.test");
    assert_eq!(target.port, 443);
    assert_eq!(target.lookup_name(), "api.test:443");
    assert_eq!(target.lookup_failure(), "DNS resolution failed for api.test:443");
    let target = http_target("http://[::1]:8080/").unwrap();
    assert_eq!(target.lookup_name(), "[::1]:8080");
    assert_eq!(http_target("http://api.test").unwrap().port, 80);
}

#[test]
fn bad_urls_are_not_repeated() {
    assert_eq!(
        http_target("https://user:secret@").unwrap_err(),
        "resolved URL failed to parse"
    );
    assert_eq!(http_target("::").unwrap_err(), "resolved URL failed to parse");
    assert_eq!(http_target("data:text/plain,x").unwrap_err(), "URL has no host");
    assert_eq!(
        http_target("redis://cache.test/0").unwrap_err(),
        "URL has no port and no default for the scheme"
    );
}

#[test]
fn targets_of_parts() {
    let parts = |host: Option<&str>, port| UrlParts {
        host: host.map(|text| text.to_owned()),
        port,
        query: None,
    };
    assert_eq!(parsed_target(Ok(parts(Some("h"), Some(1)))).unwrap().host, "h");
    assert_eq!(parsed_target(Ok(parts(None, None))).unwrap_err(), "URL has no host");
    assert_eq!(
        parsed_target(Err("secret".to_owned())).unwrap_err(),
        "resolved URL failed to parse"
    );
}

#[test]
fn the_first_public_address_is_selected() {
    let list = addresses(&[("10.0.0.1", true), ("93.184.216.34", false), ("1.1.1.1", false)]);
    assert_eq!(select_address("h", &list, false), Ok(1));
    assert_eq!(select_address("h", &list, true), Ok(0));
    assert!(validate_resolved_address(&list[1], "h", false, "").is_ok());
}

#[test]
fn hosts_without_public_address_are_refused() {
    let list = addresses(&[("10.0.0.1", true), ("::1", true)]);
    assert_eq!(
        select_address("evil.test", &list, false).unwrap_err(),
        "DNS rebinding guard: host 'evil.test' resolved only to private addresses (10.0.0.1, ::1)"
    );
    assert_eq!(select_address("evil.test", &list, true), Ok(0));
    assert_eq!(
        select_address("none.test", &Vec::new(), true).unwrap_err(),
        "DNS resolution returned no addresses for none.test"
    );
}

#[test]
fn a_client_is_planned() {
    let mut headers = HeaderTable::new();
    headers.insert("Accept".to_owned(), "text/plain".to_owned());
    headers.insert("X-Token".to_owned(), "t".to_owned());
    let list = addresses(&[("10.0.0.1", true), ("1.1.1.1", false)]);

    let plan = plan_http_client(&profile(HttpBackendMethod::Post, false), "h", &list, &headers)
        .unwrap_or_else(|message| panic!("{}", message));
    assert_eq!(plan.pinned, 1);
    assert_eq!(plan.default_headers.len(), 1);
    assert_eq!(plan.default_headers.get("x-token").unwrap(), "t");
    assert_eq!(plan.timeout, Duration::from_millis(1500));
    assert!(!plan.follow_redirects);

    let plan = plan_http_client(&profile(HttpBackendMethod::Get, true), "h", &list, &headers)
        .unwrap_or_else(|message| panic!("{}", message));
    assert_eq!(plan.pinned, 0);
    assert_eq!(plan.default_headers.get("accept").unwrap(), "text/plain");
}

#[test]
fn addresses_are_looked_at_before_headers() {
    let mut headers = HeaderTable::new();
    headers.insert("x".to_owned(), "\n".to_owned());
    let plan = |list: &Vec<ResolvedAddress>| {
        plan_http_client(&profile(HttpBackendMethod::Get, false), "h", list, &headers)
            .err()
            .unwrap()
    };
    assert_eq!(
        plan(&addresses(&[("10.0.0.1", true)])),
        "DNS rebinding guard: host 'h' resolved only to private addresses (10.0.0.1)"
    );
    assert_eq!(
        plan(&addresses(&[("1.1.1.1", false)])),
        "invalid header value for 'x': failed to parse header value"
    );
}

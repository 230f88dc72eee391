use std::sync::Arc;
use std::time::Duration;

use mcpg_plugin_backend_net_core::client_registry::{
    digest_credential_bundle, BuildAction, BuildEvent, ClientRegistry, ClientRegistryConfig,
};
use mcpg_plugin_backend_net_core::json::JsonValue;
use mcpg_plugin_backend_net_core::runtime::{
    build_expr_context, client_failure_message, credential_failure_message, credential_snapshot,
    credential_uris, credential_value, credential_values, invocation_context, BackendRequest,
    CallerIdentity, CredentialFailure, HeaderOutcome, NetworkProfileRuntime, ResolveAction,
    ResolveEvent,
};
use mcpg_plugin_backend_net_core::types::{HeaderTable, HttpBackendMethod, HttpRequestProfile};

fn pair(name: &str, value: &str) -> (String, String) {
    (name.to_owned(), value.to_owned())
}

fn table(entries: &[(&str, &str)]) -> HeaderTable {
    let mut table = HeaderTable::new();
    for (name, value) in entries {
        table.insert((*name).to_owned(), (*value).to_owned());
    }
    table
}

fn profile() -> HttpRequestProfile {
    HttpRequestProfile {
        url: "https://api.test/".to_owned(),
        method: HttpBackendMethod::Post,
        headers: HeaderTable::new(),
        expected_status_codes: vec![200],
        require_json_response: true,
        max_response_bytes: 1024,
        timeout: Duration::from_secs(1),
        allow_private_backends: false,
    }
}

fn runtime(url: &str, headers: &[(&str, &str)]) -> NetworkProfileRuntime<u8> {
    let compiled = headers.iter().enumerate().map(|(i, _)| Ok(i as u8 + 1)).collect();
    NetworkProfileRuntime::register(
        url.to_owned(),
        table(headers),
        profile(),
        Ok(0),
        compiled,
        vec!["vault://kv/db#password".to_owned()],
    )
    .unwrap_or_else(|message| panic!("{}", message))
}

fn request(identity: Option<CallerIdentity>) -> BackendRequest {
    BackendRequest {
        request_id: "r1".to_owned(),
        session_id: Some("s1".to_owned()),
        identity,
    }
}

fn alice() -> CallerIdentity {
    CallerIdentity {
        subject_id: Some("alice".to_owned()),
        trust_level: Some("high".to_owned()),
        auth_provider: Some("oidc".to_owned()),
        kind: Some("http".to_owned()),
        roles: vec!["admin".to_owned()],
        groups: vec!["ops".to_owned()],
        scopes: vec!["read".to_owned(), "write".to_owned()],
        attributes: JsonValue::Bool(true),
    }
}

fn value(text: &str) -> HeaderOutcome {
    HeaderOutcome::Value(text.to_owned())
}

#[test]
fn a_profile_is_registered() {
    let rt = runtime("https://api.test/", &[("a", "x"), ("b", "y")]);
    assert_eq!(rt.profile().url, "https://api.test/");
    assert_eq!(rt.raw_url(), "https://api.test/");
    assert_eq!(rt.raw_headers().entries(), &vec![pair("a", "x"), pair("b", "y")]);
    assert_eq!(*rt.url_template(), 0);
    assert_eq!(rt.header_templates(), &vec![1, 2]);
    assert!(!rt.has_cred_refs());
    assert!(runtime("https://cred://x", &[]).has_cred_refs());
    assert!(runtime("u", &[("a", "x"), ("b", "${cred://p/t}")]).has_cred_refs());
}

#[test]
fn templates_that_do_not_compile_are_reported() {
    let register = |url: Result<u8, String>, headers: Vec<Result<u8, String>>| {
        NetworkProfileRuntime::register(
            "u".to_owned(),
            table(&[("a", "x"), ("b", "y")]),
            profile(),
            url,
            headers,
            vec![],
        )
        .err()
        .unwrap()
    };
    assert_eq!(
        register(Err("bad".to_owned()), vec![Err("worse".to_owned()), Ok(1)]),
        "url expression: bad"
    );
    assert_eq!(
        register(Ok(0), vec![Ok(1), Err("worse".to_owned())]),
        "header 'b' expression: worse"
    );
}

#[test]
fn operator_headers_are_found_in_any_case() {
    let rt = runtime("u", &[("Idempotency-Key", "k")]);
    assert!(rt.operator_has_header("idempotency-key"));
    assert!(rt.operator_has_header("IDEMPOTENCY-KEY"));
    assert!(!rt.operator_has_header("idempotency"));
}

#[test]
fn rotating_secrets_concern_the_profiles_that_use_them() {
    let rt = runtime("u", &[]);
    assert!(rt.derives_from_secret("vault://kv/db#password"));
    assert!(!rt.derives_from_secret("vault://kv/db"));
}

#[test]
fn a_call_resolves_to_a_bundle() {
    let rt = runtime(
        "https://api.test/${cred://p/b}",
        &[("Authorization", "${cred://p/a}"), ("X-Key", "${cred://p/b} ${cred://o/c}")],
    );
    let bundle = rt
        .resolve_bundle(Ok("https://api.test/1".to_owned()), vec![value("A"), value("K")])
        .unwrap_or_else(|message| panic!("{}", message));
    assert_eq!(bundle.resolved_url, "https://api.test/1");
    assert_eq!(
        bundle.resolved_headers.entries(),
        &vec![pair("Authorization", "A"), pair("X-Key", "K")]
    );
    assert_eq!(
        bundle.digest,
        digest_credential_bundle(&[
            pair("url", "https://api.test/1"),
            pair("hdr:x-key", "K"),
            pair("hdr:authorization", "A"),
        ])
    );
    assert_eq!(
        bundle.cred_keys,
        vec![pair("o", "c"), pair("p", "a"), pair("p", "b")]
    );
    let client = Arc::new(reqwest::Client::new());
    let call = bundle.with_client(Arc::clone(&client));
    assert!(Arc::ptr_eq(&call.client, &client));
    assert_eq!(call.resolved_url, "https://api.test/1");
    assert_eq!(call.resolved_headers.entries().len(), 2);
}

#[test]
fn the_first_failure_of_a_call_is_reported() {
    let rt = runtime("u", &[("a", "x"), ("b", "y")]);
    let message = |url: Result<String, String>, outcomes| {
        rt.resolve_bundle(url, outcomes).err().unwrap()
    };
    assert_eq!(
        message(Err("no".to_owned()), vec![HeaderOutcome::Failed("x".to_owned()), value("1")]),
        "evaluating URL expression: no"
    );
    assert_eq!(
        message(Ok("u".to_owned()), vec![value("1"), HeaderOutcome::Failed("x".to_owned())]),
        "evaluating header 'b' expression: x"
    );
    assert_eq!(
        message(
            Ok("u".to_owned()),
            vec![
                HeaderOutcome::Refused("line break".to_owned()),
                HeaderOutcome::Failed("x".to_owned())
            ]
        ),
        "header 'a': line break"
    );
}

#[test]
fn static_and_headerless_calls_share_a_digest() {
    let rt = runtime("https://api.test/", &[]);
    let fixed = rt.resolve_static_client();
    assert_eq!(fixed.resolved_url, "https://api.test/");
    assert!(fixed.resolved_headers.entries().is_empty());
    assert!(fixed.cred_keys.is_empty());
    assert_eq!(
        fixed.digest,
        digest_credential_bundle(&[pair("url", "https://api.test/")])
    );
    let call = rt
        .resolve_bundle(Ok("https://api.test/".to_owned()), vec![])
        .unwrap_or_else(|message| panic!("{}", message));
    assert_eq!(call.digest, fixed.digest);
}

#[test]
fn bundles_with_other_values_have_other_digests() {
    let rt = runtime("u", &[("a", "x"), ("b", "y")]);
    let digest = |url: &str, a: &str, b: &str| {
        rt.resolve_bundle(Ok(url.to_owned()), vec![value(a), value(b)])
            .unwrap_or_else(|message| panic!("{}", message))
            .digest
    };
    assert_eq!(digest("u", "1", "2"), digest("u", "1", "2"));
    assert_ne!(digest("u", "1", "2"), digest("u", "2", "1"));
    assert_ne!(digest("u", "1", "2"), digest("v", "1", "2"));
    assert_ne!(digest("u", "12", ""), digest("u", "1", "2"));
}

#[test]
fn revoking_a_credential_drops_the_clients_that_hold_it() {
    let rt = runtime("https://api.test/", &[("Authorization", "Bearer ${cred://oauth/api}")]);
    let bundle = rt
        .resolve_bundle(Ok("https://api.test/".to_owned()), vec![value("Bearer abc")])
        .unwrap_or_else(|message| panic!("{}", message));
    let mut registry = ClientRegistry::new(ClientRegistryConfig::default());
    registry.get_or_build(
        bundle.digest,
        BuildEvent::Built {
            client: Arc::new(reqwest::Client::new()),
            cred_keys: bundle.cred_keys,
        },
        0,
    );
    assert!(matches!(
        registry.get_or_build(bundle.digest, BuildEvent::Requested, 1),
        BuildAction::Use { .. }
    ));
    assert_eq!(registry.evict_for("oauth", "other"), 0);
    assert_eq!(registry.evict_for("oauth", "api"), 1);
    assert!(matches!(
        registry.get_or_build(bundle.digest, BuildEvent::Requested, 2),
        BuildAction::Build
    ));
}

#[test]
fn the_digest_of_a_call_ignores_the_order_of_its_headers() {
    let one = runtime("u", &[("a", "x"), ("b", "y")]);
    let digest = one
        .resolve_bundle(Ok("u".to_owned()), vec![value("1"), value("2")])
        .unwrap_or_else(|message| panic!("{}", message))
        .digest;
    assert_eq!(
        digest,
        digest_credential_bundle(&[pair("hdr:b", "2"), pair("hdr:a", "1"), pair("url", "u")])
    );
}

#[test]
fn the_keys_of_a_profile_do_not_depend_on_the_call() {
    let rt = runtime("cred://p/t", &[("a", "cred://q/u"), ("b", "cred://p/t")]);
    let keys = |url: &str| {
        rt.resolve_bundle(Ok(url.to_owned()), vec![value("1"), value("2")])
            .unwrap_or_else(|message| panic!("{}", message))
            .cred_keys
    };
    assert_eq!(keys("u"), vec![pair("p", "t"), pair("q", "u")]);
    assert_eq!(keys("u"), keys("cred://other/x"));
}

#[test]
fn credentials_are_collected_and_read_back() {
    let refs = vec![
        vec!["cred://p/b".to_owned(), "cred://p/a".to_owned()],
        vec![],
        vec!["cred://p/b".to_owned()],
    ];
    let uris = credential_uris(&refs);
    assert_eq!(uris, vec!["cred://p/a".to_owned(), "cred://p/b".to_owned()]);
    let snapshot = credential_snapshot(&uris);
    assert_eq!(
        snapshot.text(),
        "{\"cred://p/a\":\"cred://p/a\",\"cred://p/b\":\"cred://p/b\"}"
    );
    let resolved = JsonValue::Object(vec![
        ("cred://p/a".to_owned(), JsonValue::String("A".to_owned())),
        ("cred://p/b".to_owned(), JsonValue::number(1)),
    ]);
    let values = credential_values(&resolved);
    assert_eq!(values, vec![pair("cred://p/a", "A")]);
    assert_eq!(credential_value(&values, "cred://p/a").as_deref(), Some("A"));
    assert_eq!(credential_value(&values, "cred://p/b"), None);
    assert!(credential_values(&JsonValue::String("x".to_owned())).is_empty());
}

#[test]
fn a_call_with_credentials_is_resolved_step_by_step() {
    let rt = runtime("${cred://p/t}", &[("a", "${cred://p/t}")]);
    let refs = vec![vec!["cred://p/t".to_owned()], vec!["cred://p/t".to_owned()]];
    match rt.resolve_client(&request(None), "api", ResolveEvent::Called { template_refs: refs }) {
        ResolveAction::ResolveCredentials { snapshot, .. } => {
            assert_eq!(snapshot.text(), "{\"cred://p/t\":\"cred://p/t\"}");
        }
        _ => panic!("credentials come first"),
    }
    let filled = JsonValue::Object(vec![(
        "cred://p/t".to_owned(),
        JsonValue::String("secret".to_owned()),
    )]);
    match rt.resolve_client(&request(None), "api", ResolveEvent::CredentialsResolved(Ok(filled))) {
        ResolveAction::Evaluate(credentials) => {
            assert_eq!(credentials, vec![pair("cred://p/t", "secret")]);
        }
        _ => panic!("templates come next"),
    }
    let bundle = match rt.resolve_client(&request(None), "api", ResolveEvent::Evaluated {
        url: Ok("https://secret.test/".to_owned()),
        outcomes: vec![value("secret")],
    }) {
        ResolveAction::ObtainClient(bundle) => bundle,
        _ => panic!("the client comes next"),
    };
    assert_eq!(bundle.cred_keys, vec![pair("p", "t")]);
    let client = Arc::new(reqwest::Client::new());
    match rt.resolve_client(&request(None), "api", ResolveEvent::ClientObtained {
        bundle,
        client: Ok(Arc::clone(&client)),
    }) {
        ResolveAction::Done(call) => {
            assert!(Arc::ptr_eq(&call.client, &client));
            assert_eq!(call.resolved_url, "https://secret.test/");
            assert_eq!(call.resolved_headers.entries(), &vec![pair("a", "secret")]);
        }
        _ => panic!("the call is resolved"),
    }
}

#[test]
fn a_call_without_credentials_skips_them() {
    let rt = runtime("u", &[]);
    match rt.resolve_client(&request(None), "api", ResolveEvent::Called { template_refs: vec![vec![], vec![]] }) {
        ResolveAction::Evaluate(credentials) => assert!(credentials.is_empty()),
        _ => panic!("there is nothing to resolve"),
    }
}

#[test]
fn every_stage_of_a_call_can_fail() {
    let rt = runtime("u", &[]);
    let failed = |event| match rt.resolve_client(&request(None), "api", event) {
        ResolveAction::Fail(message) => message,
        _ => panic!("the call fails"),
    };
    assert_eq!(
        failed(ResolveEvent::CredentialsResolved(Err(CredentialFailure::Other(
            "timeout".to_owned()
        )))),
        "credential resolution: timeout"
    );
    assert_eq!(
        failed(ResolveEvent::Evaluated { url: Err("no".to_owned()), outcomes: vec![] }),
        "evaluating URL expression: no"
    );
    assert_eq!(
        failed(ResolveEvent::ClientObtained {
            bundle: rt.resolve_static_client(),
            client: Err("no route".to_owned()),
        }),
        "building HTTP client: no route"
    );
}

#[test]
fn failures_have_messages() {
    assert_eq!(
        credential_failure_message(CredentialFailure::Backend("denied".to_owned())),
        "denied"
    );
    assert_eq!(
        credential_failure_message(CredentialFailure::Other("timeout".to_owned())),
        "credential resolution: timeout"
    );
    assert_eq!(client_failure_message("no route"), "building HTTP client: no route");
}

#[test]
fn a_context_tells_of_the_caller() {
    let arguments = JsonValue::Array(vec![JsonValue::number(1)]);
    let ctx = build_expr_context(&arguments, "tool", &request(Some(alice())));
    assert_eq!(ctx.arguments, arguments);
    assert_eq!(ctx.tool_name, "tool");
    assert_eq!(ctx.context.session_id.as_deref(), Some("s1"));
    assert_eq!(ctx.context.principal_id.as_deref(), Some("alice"));
    assert_eq!(ctx.context.trust_level.as_deref(), Some("high"));
    assert_eq!(ctx.context.auth_provider.as_deref(), Some("oidc"));
    assert_eq!(ctx.context.transport.as_deref(), Some("http"));
    assert_eq!(ctx.context.roles, vec!["admin".to_owned()]);
    assert_eq!(ctx.context.groups, vec!["ops".to_owned()]);
    assert_eq!(ctx.context.scopes, vec!["read".to_owned(), "write".to_owned()]);
    assert_eq!(ctx.context.attributes, JsonValue::Bool(true));
    assert!(ctx.steps.is_none());
    assert!(ctx.env.is_empty());

    let anonymous = BackendRequest { session_id: None, ..request(None) };
    let ctx = build_expr_context(&JsonValue::Null, "t", &anonymous);
    assert_eq!(ctx.context.session_id, None);
    assert_eq!(ctx.context.principal_id, None);
    assert!(ctx.context.roles.is_empty());
    assert_eq!(ctx.context.attributes, JsonValue::Null);
}

#[test]
fn a_host_is_told_who_makes_the_call() {
    let context = invocation_context(&request(Some(alice())), "api");
    assert_eq!(context.request_id, "r1");
    assert_eq!(context.session_id.as_deref(), Some("s1"));
    assert_eq!(context.backend_name, "api");
    let identity = context.identity.unwrap();
    assert_eq!(identity.subject_id.as_deref(), Some("alice"));
    assert_eq!(identity.trust_level.as_deref(), Some("high"));
    assert_eq!(identity.auth_provider.as_deref(), Some("oidc"));
    assert_eq!(identity.kind.as_deref(), Some("http"));
    assert_eq!(identity.roles, vec!["admin".to_owned()]);
    assert_eq!(identity.groups, vec!["ops".to_owned()]);
    assert_eq!(identity.scopes, vec!["read".to_owned(), "write".to_owned()]);
    assert_eq!(identity.attributes, JsonValue::Bool(true));
    assert!(invocation_context(&request(None), "api").identity.is_none());
}

#[test]
fn the_same_references_are_asked_for_with_the_same_snapshot() {
    let rt = runtime("${cred://p/a}", &[("h", "${cred://p/b}")]);
    let a = "cred://p/a".to_owned();
    let b = "cred://p/b".to_owned();
    let asked = |template_refs| match rt.resolve_client(
        &request(Some(alice())),
        "api",
        ResolveEvent::Called { template_refs },
    ) {
        ResolveAction::ResolveCredentials { context, snapshot } => {
            assert_eq!(context.backend_name, "api");
            assert_eq!(context.identity.unwrap().subject_id.as_deref(), Some("alice"));
            snapshot.text()
        }
        _ => panic!("credentials come first"),
    };
    let text = "{\"cred://p/a\":\"cred://p/a\",\"cred://p/b\":\"cred://p/b\"}";
    assert_eq!(asked(vec![vec![a.clone()], vec![b.clone()]]), text);
    assert_eq!(asked(vec![vec![b.clone(), a.clone()], vec![b, a]]), text);
}

#[test]
fn failed_credentials_end_a_call() {
    let rt = runtime("${cred://p/t}", &[]);
    let called = ResolveEvent::Called { template_refs: vec![vec!["cred://p/t".to_owned()]] };
    assert!(matches!(
        rt.resolve_client(&request(None), "api", called),
        ResolveAction::ResolveCredentials { .. }
    ));
    let failed = ResolveEvent::CredentialsResolved(Err(CredentialFailure::Backend(
        "denied".to_owned(),
    )));
    match rt.resolve_client(&request(None), "api", failed) {
        ResolveAction::Fail(message) => assert_eq!(message, "denied"),
        _ => panic!("the call fails"),
    }
}

/// A registry with a client under `(p, t)` and one under `(p, u)`.
fn two_clients() -> ClientRegistry {
    let mut registry = ClientRegistry::new(ClientRegistryConfig::default());
    for target in ["t", "u"] {
        let built = BuildEvent::Built {
            client: Arc::new(reqwest::Client::new()),
            cred_keys: vec![pair("p", target)],
        };
        let digest = digest_credential_bundle(&[pair("url", target)]);
        assert!(matches!(registry.get_or_build(digest, built, 1), BuildAction::Use { .. }));
    }
    registry
}

#[test]
fn a_rotated_secret_drops_the_clients_of_its_profiles() {
    let rt = runtime("u", &[]);
    let mut registry = two_clients();
    assert_eq!(rt.secret_rotated(&mut registry, "vault://kv/other"), 0);
    assert_eq!(registry.len(), 2);
    assert_eq!(rt.secret_rotated(&mut registry, "vault://kv/db#password"), 2);
    assert_eq!(registry.len(), 0);
}

#[test]
fn a_revoked_credential_drops_the_clients_under_it() {
    let rt = runtime("u", &[]);
    let mut registry = two_clients();
    assert_eq!(rt.credential_revoked(&mut registry, "p", "v"), 0);
    assert_eq!(registry.len(), 2);
    assert_eq!(rt.credential_revoked(&mut registry, "p", "t"), 1);
    let digest = |target| digest_credential_bundle(&[pair("url", target)]);
    assert!(matches!(
        registry.get_or_build(digest("t"), BuildEvent::Requested, 2),
        BuildAction::Build
    ));
    assert!(matches!(
        registry.get_or_build(digest("u"), BuildEvent::Requested, 2),
        BuildAction::Use { .. }
    ));
}

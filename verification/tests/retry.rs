use mcpg_plugin_backend_net_core::json::JsonValue;
use mcpg_plugin_backend_net_core::retry::{
    is_json_content_type, parse_and_validate_json_response, transport_downstream_error,
    validate_expected_status_codes, validate_parsed_json, with_retry_guidance,
};
use mcpg_plugin_backend_net_core::types::{HttpResponseSummary, RetrySafetyContext};

fn response(content_type: Option<&str>, body: &str) -> HttpResponseSummary {
    HttpResponseSummary {
        status_code: 200,
        content_type: content_type.map(|text| text.to_owned()),
        retry_after_ms: None,
        body: body.to_owned(),
        body_truncated: false,
        duration_ms: 1,
    }
}

#[test]
fn matching_status_returns_no_error() {
    assert!(validate_expected_status_codes(
        &[200, 204],
        200,
        None,
        RetrySafetyContext::ReadOnlyProbe
    )
    .is_none());
}

#[test]
fn unexpected_5xx_is_retryable() {
    let err = validate_expected_status_codes(&[200], 502, None, RetrySafetyContext::ReadOnlyProbe)
        .unwrap();
    assert!(err.retryable);
    assert_eq!(err.kind, "unexpected_status_code");
    assert_eq!(err.status_code, Some(502));
}

#[test]
fn unexpected_4xx_is_not_retryable() {
    let err = validate_expected_status_codes(&[200], 400, None, RetrySafetyContext::ReadOnlyProbe)
        .unwrap();
    assert!(!err.retryable);
    assert_eq!(err.suggested_action, "inspect_downstream_http_contract");
}

#[test]
fn rate_limit_with_retry_after_uses_after_delay_class() {
    let err = validate_expected_status_codes(
        &[200],
        429,
        Some(2_500),
        RetrySafetyContext::PotentiallyNonIdempotentJsonCall,
    )
    .unwrap();
    assert!(err.retryable);
    assert_eq!(err.retry_class, "after_delay");
    assert_eq!(err.minimum_backoff_ms, Some(2_500));
    assert_eq!(err.backoff_strategy, "respect_retry_after");
}

#[test]
fn unexpected_status_in_full() {
    let err = validate_expected_status_codes(
        &[200, 204],
        503,
        None,
        RetrySafetyContext::PotentiallyNonIdempotentJsonCall,
    )
    .unwrap();
    assert_eq!(err.code, "mcpg.downstream_http.unexpected_status_code");
    assert_eq!(
        err.message,
        "Downstream response status 503 did not match the configured expected status codes."
    );
    assert_eq!(err.retry_class, "with_backoff");
    assert_eq!(err.retry_after_ms, None);
    assert_eq!(err.idempotency_hint, "potentially_non_idempotent");
    assert_eq!(
        err.caller_retry_decision,
        "confirm_idempotency_then_retry_with_backoff"
    );
    assert_eq!(err.retry_safety, "review_idempotency_before_retry");
    assert_eq!(err.backoff_strategy, "exponential_backoff");
    assert_eq!(err.minimum_backoff_ms, Some(1_000));
    assert_eq!(err.suggested_action, "review_idempotency_then_retry_with_backoff");
    assert_eq!(
        err.details.text(),
        "{\"actualStatusCode\":503,\"expectedStatusCodes\":[200,204],\"retryAfterMs\":null}"
    );
}

#[test]
fn read_only_calls_retry_by_themselves() {
    let err = validate_expected_status_codes(
        &[],
        429,
        Some(0),
        RetrySafetyContext::ReadOnlyProbe,
    )
    .unwrap();
    assert_eq!(err.retry_safety, "safe_for_automatic_retry");
    assert_eq!(err.caller_retry_decision, "automatic_retry_after_delay");
    assert_eq!(err.suggested_action, "retry_after_indicated_delay");
    assert_eq!(err.idempotency_hint, "idempotent_read_only");
    assert_eq!(err.minimum_backoff_ms, Some(0));
    assert_eq!(
        err.details.text(),
        "{\"actualStatusCode\":429,\"expectedStatusCodes\":[],\"retryAfterMs\":0}"
    );

    let err = validate_expected_status_codes(&[], 500, None, RetrySafetyContext::ReadOnlyProbe)
        .unwrap();
    assert_eq!(err.caller_retry_decision, "automatic_retry_with_backoff");
    assert_eq!(
        err.suggested_action,
        "retry_with_backoff_or_check_downstream_capacity"
    );
}

#[test]
fn errors_that_are_not_retried_say_so() {
    let err = validate_expected_status_codes(
        &[200],
        499,
        Some(9),
        RetrySafetyContext::PotentiallyNonIdempotentJsonCall,
    )
    .unwrap();
    assert!(!err.retryable);
    assert_eq!(err.retry_class, "do_not_retry");
    assert_eq!(err.caller_retry_decision, "do_not_retry");
    assert_eq!(err.retry_safety, "do_not_retry");
    assert_eq!(err.backoff_strategy, "no_retry");
    assert_eq!(err.minimum_backoff_ms, None);
    assert_eq!(err.retry_after_ms, Some(9));
}

#[test]
fn transport_errors_are_retryable() {
    let err = transport_downstream_error("refused", RetrySafetyContext::ReadOnlyProbe);
    assert_eq!(err.kind, "transport_error");
    assert_eq!(err.code, "mcpg.downstream_http.transport_error");
    assert_eq!(
        err.message,
        "Downstream HTTP execution failed before a valid response was received."
    );
    assert!(err.retryable);
    assert_eq!(err.retry_class, "with_backoff");
    assert_eq!(err.retry_safety, "safe_for_automatic_retry");
    assert_eq!(err.suggested_action, "check_downstream_connectivity_and_retry");
    assert_eq!(err.minimum_backoff_ms, Some(1_000));
    assert_eq!(err.status_code, None);
    assert_eq!(err.details.text(), "{\"error\":\"refused\"}");

    let err = transport_downstream_error(
        "refused",
        RetrySafetyContext::PotentiallyNonIdempotentJsonCall,
    );
    assert_eq!(err.retry_safety, "review_idempotency_before_retry");
}

#[test]
fn guidance_is_stable() {
    let err = transport_downstream_error("x", RetrySafetyContext::ReadOnlyProbe);
    let again = with_retry_guidance(err.clone(), RetrySafetyContext::ReadOnlyProbe);
    assert_eq!(format!("{:?}", err), format!("{:?}", again));
}

#[test]
fn json_content_type_validation() {
    let resp = response(Some("application/json"), r#"{"ok":true}"#);
    let (json, parse_err, err) = parse_and_validate_json_response(&resp, true);
    let mut expected = serde_json::Map::new();
    expected.insert("ok".to_owned(), serde_json::Value::Bool(true));
    assert_eq!(json.unwrap(), serde_json::Value::Object(expected));
    assert!(parse_err.is_none());
    assert!(err.is_none());
}

#[test]
fn non_json_with_require_returns_error() {
    let resp = response(Some("text/plain"), "hi");
    let (_, _, err) = parse_and_validate_json_response(&resp, true);
    assert_eq!(err.unwrap().kind, "invalid_content_type");
}

#[test]
fn malformed_json_with_require_returns_error() {
    let resp = response(Some("application/json"), "{not json");
    let (_, parse_err, err) = parse_and_validate_json_response(&resp, true);
    assert!(parse_err.is_some());
    assert_eq!(err.unwrap().kind, "invalid_json_body");
}

#[test]
fn content_errors_in_full() {
    let (json, parse_err, err) = parse_and_validate_json_response(&response(None, "{}"), true);
    assert!(json.is_none() && parse_err.is_none());
    let err = err.unwrap();
    assert_eq!(err.code, "mcpg.downstream_http.invalid_content_type");
    assert_eq!(
        err.message,
        "Downstream HTTP JSON call required a JSON response content type, but the response was not JSON."
    );
    assert_eq!(err.suggested_action, "inspect_downstream_response_content_type");
    assert_eq!(err.details.text(), "{\"responseContentType\":null}");
    assert!(!err.retryable);
    assert_eq!(err.idempotency_hint, "potentially_non_idempotent");
    assert_eq!(err.backoff_strategy, "no_retry");

    let (_, _, err) = parse_and_validate_json_response(&response(Some("a\"b"), "{}"), true);
    assert_eq!(err.unwrap().details.text(), "{\"responseContentType\":\"a\\\"b\"}");

    let (json, parse_err, err) = validate_parsed_json(Err("line 1".to_owned()), true);
    assert!(json.is_none());
    assert_eq!(parse_err.as_deref(), Some("line 1"));
    let err = err.unwrap();
    assert_eq!(err.code, "mcpg.downstream_http.invalid_json_body");
    assert_eq!(
        err.message,
        "Downstream HTTP JSON call returned a JSON content type, but the body was not valid JSON."
    );
    assert_eq!(err.suggested_action, "inspect_downstream_json_payload");
    assert_eq!(err.details.text(), "{\"parseError\":\"line 1\"}");
}

#[test]
fn json_is_optional_unless_required() {
    let (json, parse_err, err) = parse_and_validate_json_response(&response(None, "{}"), false);
    assert!(json.is_none() && parse_err.is_none() && err.is_none());
    let (json, parse_err, err) =
        parse_and_validate_json_response(&response(Some("application/json"), "{"), false);
    assert!(json.is_none());
    assert_eq!(
        parse_err.as_deref(),
        Some("EOF while parsing an object at line 1 column 1")
    );
    assert!(err.is_none());
}

#[test]
fn json_content_types() {
    assert!(is_json_content_type("application/json"));
    assert!(is_json_content_type(" Application/JSON ; charset=utf-8"));
    assert!(is_json_content_type("application/problem+json"));
    assert!(is_json_content_type("application/vnd.api+JSON;v=1"));
    assert!(is_json_content_type("+json"));
    assert!(!is_json_content_type("application/json-patch"));
    assert!(!is_json_content_type("text/plain; application/json"));
    assert!(!is_json_content_type(""));
}

#[test]
fn details_are_json_values() {
    let err = transport_downstream_error("e", RetrySafetyContext::ReadOnlyProbe);
    assert_eq!(
        err.details,
        JsonValue::Object(vec![("error".to_owned(), JsonValue::String("e".to_owned()))])
    );
}

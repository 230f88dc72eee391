use std::time::Duration;

use mcpg_plugin_backend_net_core::exec::{
    build_default_headers, build_per_call_headers, build_query_string, finalize_http_summary,
    is_protected_request_header, parse_retry_after_ms, plan_http_call, read_response_meta,
    request_error, request_url, response_is_streaming, response_meta, streams,
};
use mcpg_plugin_backend_net_core::json::JsonValue;
use mcpg_plugin_backend_net_core::types::{
    HeaderTable, HttpBackendMethod, HttpCallMode, HttpRequestProfile,
};
use mcpg_plugin_backend_net_core::url::{can_add_query, merge_query};

fn text(value: &str) -> JsonValue {
    JsonValue::String(value.to_owned())
}

fn object(entries: Vec<(&str, JsonValue)>) -> JsonValue {
    JsonValue::Object(
        entries
            .into_iter()
            .map(|(key, value)| (key.to_owned(), value))
            .collect(),
    )
}

fn table(entries: &[(&str, &str)]) -> HeaderTable {
    let mut table = HeaderTable::new();
    for (name, value) in entries {
        table.insert((*name).to_owned(), (*value).to_owned());
    }
    table
}

fn pairs(entries: &[(&str, &str)]) -> Vec<(String, String)> {
    entries
        .iter()
        .map(|(name, value)| ((*name).to_owned(), (*value).to_owned()))
        .collect()
}

fn profile(method: HttpBackendMethod, require_json_response: bool) -> HttpRequestProfile {
    HttpRequestProfile {
        url: "https://api.test/v1".to_owned(),
        method,
        headers: HeaderTable::new(),
        expected_status_codes: vec![200],
        require_json_response,
        max_response_bytes: 1024,
        timeout: Duration::from_secs(5),
        allow_private_backends: false,
    }
}

fn headers(entries: &[(&str, &str)]) -> reqwest::header::HeaderMap {
    let mut map = reqwest::header::HeaderMap::new();
    for (name, value) in entries {
        map.append(
            reqwest::header::HeaderName::from_bytes(name.as_bytes()).unwrap(),
            reqwest::header::HeaderValue::from_str(value).unwrap(),
        );
    }
    map
}

#[test]
fn build_query_sorts_keys() {
    let q = build_query_string(&object(vec![("b", JsonValue::number(1)), ("a", text("x"))])).unwrap();
    assert_eq!(q, "a=x&b=1");
}

#[test]
fn build_query_array_repeats_key() {
    let q = build_query_string(&object(vec![(
        "x",
        JsonValue::Array(vec![text("a"), text("b")]),
    )]))
    .unwrap();
    assert_eq!(q, "x=a&x=b");
}

#[test]
fn build_query_percent_encodes_special() {
    let q = build_query_string(&object(vec![("k", text("a b/c"))])).unwrap();
    assert_eq!(q, "k=a%20b%2Fc");
}

#[test]
fn build_query_rejects_non_object() {
    let array = JsonValue::Array(vec![
        JsonValue::number(1),
        JsonValue::number(2),
        JsonValue::number(3),
    ]);
    assert!(build_query_string(&array).is_err());
    assert_eq!(
        build_query_string(&array).unwrap_err(),
        "HTTP query call arguments must be a JSON object"
    );
}

#[test]
fn build_query_of_mixed_arguments() {
    let q = build_query_string(&object(vec![
        ("b", JsonValue::number(2)),
        ("a", text("x y")),
        ("tag", JsonValue::Array(vec![text("red"), text("blue")])),
    ]))
    .unwrap();
    assert_eq!(q, "a=x%20y&b=2&tag=red&tag=blue");
}

#[test]
fn build_query_of_scalars_and_nested_values() {
    let q = build_query_string(&object(vec![
        ("n", JsonValue::Null),
        ("t", JsonValue::Bool(true)),
        ("f", JsonValue::Bool(false)),
        ("d", JsonValue::Number("-1.5".to_owned())),
        ("o", object(vec![("z", text("\"")), ("a", JsonValue::number(1))])),
        ("l", JsonValue::Array(vec![JsonValue::Array(vec![JsonValue::number(1), text("x")])])),
        ("none", JsonValue::Array(vec![])),
    ]))
    .unwrap();
    assert_eq!(
        q,
        "d=-1.5&f=false&l=%5B1%2C%22x%22%5D&n=null\
         &o=%7B%22a%22%3A1%2C%22z%22%3A%22%5C%22%22%7D&t=true"
    );
}

#[test]
fn build_query_of_an_empty_object_is_empty() {
    assert_eq!(build_query_string(&object(vec![])).unwrap(), "");
}

#[test]
fn build_query_ignores_the_order_of_entries() {
    let a = object(vec![("x", text("1")), ("\u{e9}", text("\u{1f600}")), ("X", text("2"))]);
    let b = object(vec![("\u{e9}", text("\u{1f600}")), ("X", text("2")), ("x", text("1"))]);
    assert_eq!(build_query_string(&a), build_query_string(&b));
    assert_eq!(build_query_string(&a).unwrap(), "X=2&x=1&%C3%A9=%F0%9F%98%80");
}

#[test]
fn a_server_reads_back_the_arguments() {
    let q = build_query_string(&object(vec![
        ("k&=", text("a=b&c%20+")),
        ("\u{e9}", JsonValue::Array(vec![text(""), text("\u{1f600}")])),
    ]))
    .unwrap();
    let url = url::Url::parse(&format!("https://api.test/?{}", q)).unwrap();
    let read: Vec<(String, String)> = url.query_pairs().into_owned().collect();
    assert_eq!(
        read,
        pairs(&[("k&=", "a=b&c%20+"), ("\u{e9}", ""), ("\u{e9}", "\u{1f600}")])
    );
}

#[test]
fn protected_headers_filter() {
    assert!(is_protected_request_header("Host", false));
    assert!(is_protected_request_header("Connection", false));
    assert!(is_protected_request_header("Accept", true));
    assert!(!is_protected_request_header("Accept", false));
    assert!(is_protected_request_header("X-Forwarded-For", false));
    assert!(!is_protected_request_header("X-Custom", false));
}

#[test]
fn protected_headers_by_name() {
    for name in ["content-length", "Forwarded", "VIA", "X-Real-IP", " x-request-id\t"] {
        assert!(is_protected_request_header(name, false), "{}", name);
    }
    assert!(is_protected_request_header("Content-Type", true));
    assert!(!is_protected_request_header("Content-Type", false));
    assert!(is_protected_request_header("x-forwarded-", false));
    assert!(!is_protected_request_header("x-forwarded", false));
    assert!(!is_protected_request_header("", true));
}

#[test]
fn default_headers_drop_protected_names() {
    let mut headers = HeaderTable::new();
    headers.insert("Host".into(), "evil.test".into());
    headers.insert("X-Custom".into(), "ok".into());
    let map = build_default_headers(&headers, false).unwrap();
    assert!(!map.contains_key("host"));
    assert_eq!(map.get("x-custom").unwrap(), "ok");
}

#[test]
fn default_headers_report_bad_headers() {
    assert_eq!(
        build_default_headers(&table(&[("bad name", "v")]), false).unwrap_err(),
        "invalid header name 'bad name': invalid HTTP header name"
    );
    assert_eq!(
        build_default_headers(&table(&[("x-a", "one\ntwo")]), false).unwrap_err(),
        "invalid header value for 'x-a': failed to parse header value"
    );
    assert_eq!(
        build_default_headers(&table(&[("", "v")]), false).unwrap_err(),
        "invalid header name '': invalid HTTP header name"
    );
    assert!(build_default_headers(&table(&[(" host ", "\u{0}")]), false)
        .unwrap()
        .is_empty());
}

#[test]
fn default_headers_take_every_valid_header() {
    let map = build_default_headers(
        &table(&[("Authorization", "Bearer \u{e9}\t"), ("X-A!#$%&'*+.^_`|~", "")]),
        true,
    )
    .unwrap();
    assert_eq!(map.len(), 2);
    assert_eq!(map.get("authorization").unwrap().as_bytes(), "Bearer \u{e9}\t".as_bytes());
    assert_eq!(map.get("x-a!#$%&'*+.^_`|~").unwrap().as_bytes(), b"");
}

#[test]
fn default_headers_keep_the_last_of_names_that_differ_in_case() {
    let map = build_default_headers(&table(&[("x-a", "second"), ("X-A", "first")]), false).unwrap();
    assert_eq!(map.len(), 1);
    assert_eq!(map.get("x-a").unwrap(), "second");
}

#[test]
fn long_header_names_are_refused() {
    let longest = "a".repeat(65535);
    assert!(build_default_headers(&table(&[(longest.as_str(), "v")]), false).is_ok());
    let too_long = "a".repeat(65536);
    assert!(build_default_headers(&table(&[(too_long.as_str(), "v")]), false).is_err());
}

#[test]
fn per_call_headers_pass_on_trace_context() {
    let map = build_per_call_headers(
        &pairs(&[
            ("TraceParent", "00-a"),
            ("tracestate", "k=v"),
            ("Authorization", "secret"),
            ("traceparent", "00-b"),
        ]),
        None,
        false,
    )
    .unwrap();
    assert_eq!(map.len(), 2);
    assert_eq!(map.get("traceparent").unwrap(), "00-b");
    assert_eq!(map.get("tracestate").unwrap(), "k=v");
}

#[test]
fn per_call_headers_carry_the_idempotency_key() {
    let map = build_per_call_headers(&[], Some("key-1"), false).unwrap();
    assert_eq!(map.len(), 1);
    assert_eq!(map.get("Idempotency-Key").unwrap(), "key-1");
    let map = build_per_call_headers(&[], Some("key-1"), true).unwrap();
    assert!(map.is_empty());
    let map = build_per_call_headers(&[], None, false).unwrap();
    assert!(map.is_empty());
}

#[test]
fn per_call_headers_report_bad_headers() {
    assert_eq!(
        build_per_call_headers(&pairs(&[(" traceparent", "00")]), None, false).unwrap_err(),
        "invalid trace header ' traceparent': invalid HTTP header name"
    );
    assert_eq!(
        build_per_call_headers(&pairs(&[("traceparent", "\u{7f}")]), None, false).unwrap_err(),
        "invalid trace header value for 'traceparent': failed to parse header value"
    );
    assert_eq!(
        build_per_call_headers(&[], Some("a\nb"), false).unwrap_err(),
        "invalid Idempotency-Key value: failed to parse header value"
    );
    assert!(build_per_call_headers(&[], Some("a\nb"), true).is_ok());
}

#[test]
fn queries_are_merged() {
    assert_eq!(merge_query(&None, "a=1"), "a=1");
    assert_eq!(merge_query(&Some(String::new()), "a=1"), "a=1");
    assert_eq!(merge_query(&Some("x=0".to_owned()), "a=1"), "x=0&a=1");
}

#[test]
fn queries_are_added_to_urls_of_common_length() {
    assert!(can_add_query("https://api.test/v1", "a=1"));
    assert!(can_add_query("https://api.test/v1", &"a".repeat(100_000_000)));
    assert!(!can_add_query(&"a".repeat(12_000_000), ""));
}

#[test]
fn the_query_of_a_call_is_added_to_the_url() {
    assert_eq!(
        request_url("https://api.test/v1", Some("a=1")).unwrap(),
        "https://api.test/v1?a=1"
    );
    assert_eq!(
        request_url("https://api.test/v1?x=0#top", Some("a=1")).unwrap(),
        "https://api.test/v1?x=0&a=1#top"
    );
    assert_eq!(
        request_url("https://api.test/v1?", Some("a=1")).unwrap(),
        "https://api.test/v1?a=1"
    );
    assert_eq!(
        request_url("https://api.test/v1?x=0", Some("")).unwrap(),
        "https://api.test/v1?x=0"
    );
    assert_eq!(
        request_url("https://api.test/v1?x=0", None).unwrap(),
        "https://api.test/v1?x=0"
    );
    assert_eq!(
        request_url("not a url", Some("a=1")).unwrap_err(),
        "invalid URL: relative URL without a base"
    );
}

#[test]
fn a_call_is_planned() {
    let plan = plan_http_call(
        &profile(HttpBackendMethod::Get, true),
        HttpCallMode::QueryString,
        Some("a=1"),
        &pairs(&[("traceparent", "00-a")]),
        Some("key"),
        false,
        "https://api.test/v1",
    )
    .unwrap_or_else(|message| panic!("{}", message));
    assert_eq!(plan.method, HttpBackendMethod::Get);
    assert_eq!(plan.url, "https://api.test/v1?a=1");
    assert_eq!(plan.headers.get("traceparent").unwrap(), "00-a");
    assert_eq!(plan.headers.get("idempotency-key").unwrap(), "key");
    assert_eq!(plan.accept, "application/json");
    assert!(!plan.json_body);

    let plan = plan_http_call(
        &profile(HttpBackendMethod::Post, false),
        HttpCallMode::JsonBody,
        None,
        &[],
        None,
        false,
        "https://api.test/v1",
    )
    .unwrap_or_else(|message| panic!("{}", message));
    assert_eq!(plan.method, HttpBackendMethod::Post);
    assert_eq!(plan.url, "https://api.test/v1");
    assert!(plan.headers.is_empty());
    assert_eq!(plan.accept, "*/*");
    assert!(plan.json_body);
}

#[test]
fn a_bad_url_is_reported_before_a_bad_header() {
    let bad = pairs(&[("traceparent", "\n")]);
    let plan = |url: &str| {
        plan_http_call(
            &profile(HttpBackendMethod::Get, true),
            HttpCallMode::QueryString,
            None,
            &bad,
            None,
            false,
            url,
        )
    };
    assert_eq!(plan("https://").err().unwrap(), "invalid URL: empty host");
    assert_eq!(
        plan("https://api.test/").err().unwrap(),
        "invalid trace header value for 'traceparent': failed to parse header value"
    );
}

#[test]
fn a_request_without_response_has_a_message() {
    assert_eq!(request_error("refused"), "HTTP request failed: refused");
}

#[test]
fn retry_after_is_read_in_seconds() {
    assert_eq!(parse_retry_after_ms("2"), Some(2_000));
    assert_eq!(parse_retry_after_ms(" 120\t"), Some(120_000));
    assert_eq!(parse_retry_after_ms("+3"), Some(3_000));
    assert_eq!(parse_retry_after_ms("007"), Some(7_000));
    assert_eq!(parse_retry_after_ms("0"), Some(0));
    assert_eq!(parse_retry_after_ms("-1"), None);
    assert_eq!(parse_retry_after_ms("1.5"), None);
    assert_eq!(parse_retry_after_ms(""), None);
    assert_eq!(parse_retry_after_ms("+"), None);
    assert_eq!(parse_retry_after_ms("Wed, 21 Oct 2015 07:28:00 GMT"), None);
    assert_eq!(
        parse_retry_after_ms("18446744073709551"),
        Some(18_446_744_073_709_551_000)
    );
    assert_eq!(parse_retry_after_ms("18446744073709552"), None);
    assert_eq!(parse_retry_after_ms("18446744073709551616"), None);
}

#[test]
fn streaming_responses_are_recognised() {
    assert!(response_is_streaming(&headers(&[])));
    assert!(!response_is_streaming(&headers(&[("content-length", "12")])));
    assert!(response_is_streaming(&headers(&[
        ("content-length", "12"),
        ("Transfer-Encoding", "gzip, Chunked "),
    ])));
    assert!(response_is_streaming(&headers(&[
        ("content-length", "12"),
        ("content-type", " Text/Event-Stream ; charset=utf-8"),
    ])));
    assert!(!response_is_streaming(&headers(&[
        ("content-length", "12"),
        ("content-type", "application/json; text/event-stream"),
    ])));
    assert!(!response_is_streaming(&headers(&[
        ("content-length", "12"),
        ("transfer-encoding", "chunked\u{e9}"),
    ])));
}

#[test]
fn streaming_is_decided_on_plain_values() {
    assert!(streams(&None, &None, &None));
    assert!(!streams(&None, &None, &Some(b"0".to_vec())));
    assert!(streams(&Some(b"a,b,,chunked".to_vec()), &None, &Some(b"0".to_vec())));
    assert!(!streams(&Some(b"".to_vec()), &Some(b"".to_vec()), &Some(b"0".to_vec())));
}

#[test]
fn response_headers_are_read() {
    let meta = read_response_meta(&headers(&[
        ("Content-Type", "application/json"),
        ("Retry-After", "3"),
        ("Content-Length", "2"),
    ]));
    assert_eq!(meta.content_type.as_deref(), Some("application/json"));
    assert_eq!(meta.retry_after_ms, Some(3_000));
    assert!(!meta.is_streaming);

    let meta = read_response_meta(&headers(&[("content-type", "text/\u{e9}"), ("retry-after", "soon")]));
    assert_eq!(meta.content_type, None);
    assert_eq!(meta.retry_after_ms, None);
    assert!(meta.is_streaming);

    let meta = response_meta(Some(b"a\tb".to_vec()), Some(vec![0x31, 0xff]), None, None);
    assert_eq!(meta.content_type.as_deref(), Some("a\tb"));
    assert_eq!(meta.retry_after_ms, None);
}

#[test]
fn a_summary_holds_its_parts() {
    let summary = finalize_http_summary(
        503,
        Some("text/plain".to_owned()),
        Some(1_000),
        42,
        "busy".to_owned(),
        true,
    );
    assert_eq!(summary.status_code, 503);
    assert_eq!(summary.content_type.as_deref(), Some("text/plain"));
    assert_eq!(summary.retry_after_ms, Some(1_000));
    assert_eq!(summary.body, "busy");
    assert!(summary.body_truncated);
    assert_eq!(summary.duration_ms, 42);
}

#[test]
fn both_call_forms_send_and_read_the_same() {
    let plan = || {
        plan_http_call(
            &profile(HttpBackendMethod::Get, true),
            HttpCallMode::QueryString,
            Some("a=1"),
            &pairs(&[("tracestate", "t")]),
            Some("key"),
            false,
            "https://api.test/v1?b=2",
        )
        .unwrap_or_else(|message| panic!("{}", message))
    };
    let (left, read) = (plan(), plan());
    assert_eq!(left.method, read.method);
    assert_eq!(left.url, "https://api.test/v1?b=2&a=1");
    assert_eq!(left.url, read.url);
    assert_eq!(left.headers, read.headers);
    assert_eq!(left.accept, read.accept);
    assert_eq!(left.json_body, read.json_body);

    let answer = headers(&[("content-type", "text/event-stream"), ("retry-after", "2")]);
    let (left, read) = (read_response_meta(&answer), read_response_meta(&answer));
    assert!(left.is_streaming);
    assert_eq!(left.is_streaming, response_is_streaming(&answer));
    let summary =
        finalize_http_summary(200, read.content_type, read.retry_after_ms, 1, String::new(), false);
    assert_eq!(summary.status_code, 200);
    assert_eq!(summary.content_type, left.content_type);
    assert_eq!(summary.retry_after_ms, left.retry_after_ms);
}

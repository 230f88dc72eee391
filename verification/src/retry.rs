//! Downstream errors and what they advise about retrying.
//!
//! A plugin puts a [`DownstreamHttpError`] in the `downstreamError` slot of its
//! response envelope, which marks the result of the call as an error.

use crate::json::{parse_json, JsonValue};
use crate::text::{chars_of, decimal_text, ends_with, is_text, lowercased, part_before, trimmed};
use crate::types::{HttpResponseSummary, RetrySafetyContext};
use vstd::prelude::*;

verus! {

/// The least delay before a retry where the response asks for none, in
/// milliseconds.
pub const DEFAULT_BACKOFF_BASE_MS: u64 = 1_000;

/// What went wrong with a call, and whether and how to retry it.
#[derive(Debug)]
pub struct DownstreamHttpError {
    /// The kind of error.
    pub kind: String,
    /// The error code.
    pub code: String,
    /// The message for the operator.
    pub message: String,
    /// Whether a retry can help.
    pub retryable: bool,
    /// When to retry.
    pub retry_class: String,
    /// The delay that the response asks for, in milliseconds.
    pub retry_after_ms: Option<u64>,
    /// Whether the call may have an effect each time it is sent.
    pub idempotency_hint: String,
    /// What the caller should do.
    pub caller_retry_decision: String,
    /// Whether a retry is safe.
    pub retry_safety: String,
    /// How to space retries.
    pub backoff_strategy: String,
    /// The least delay before a retry, in milliseconds.
    pub minimum_backoff_ms: Option<u64>,
    /// What the operator should do.
    pub suggested_action: String,
    /// The status code of the response, where there is one.
    pub status_code: Option<u16>,
    /// More about the error.
    pub details: JsonValue,
}

/// The model of a [`DownstreamHttpError`], field by field.
#[verifier::ext_equal]
pub struct ErrorModel {
    /// The kind of error.
    pub kind: Seq<char>,
    /// The error code.
    pub code: Seq<char>,
    /// The message for the operator.
    pub message: Seq<char>,
    /// Whether a retry can help.
    pub retryable: bool,
    /// When to retry.
    pub retry_class: Seq<char>,
    /// The delay that the response asks for, in milliseconds.
    pub retry_after_ms: Option<u64>,
    /// Whether the call may have an effect each time it is sent.
    pub idempotency_hint: Seq<char>,
    /// What the caller should do.
    pub caller_retry_decision: Seq<char>,
    /// Whether a retry is safe.
    pub retry_safety: Seq<char>,
    /// How to space retries.
    pub backoff_strategy: Seq<char>,
    /// The least delay before a retry, in milliseconds.
    pub minimum_backoff_ms: Option<u64>,
    /// What the operator should do.
    pub suggested_action: Seq<char>,
    /// The status code of the response, where there is one.
    pub status_code: Option<u16>,
    /// More about the error.
    pub details: crate::json::Json,
}

impl DownstreamHttpError {
    /// The model of this error.
    pub open spec fn model(&self) -> ErrorModel {
        ErrorModel {
            kind: self.kind@,
            code: self.code@,
            message: self.message@,
            retryable: self.retryable,
            retry_class: self.retry_class@,
            retry_after_ms: self.retry_after_ms,
            idempotency_hint: self.idempotency_hint@,
            caller_retry_decision: self.caller_retry_decision@,
            retry_safety: self.retry_safety@,
            backoff_strategy: self.backoff_strategy@,
            minimum_backoff_ms: self.minimum_backoff_ms,
            suggested_action: self.suggested_action@,
            status_code: self.status_code,
            details: self.details.model(),
        }
    }
}

impl Clone for DownstreamHttpError {
    fn clone(&self) -> (copy: Self)
        ensures
            copy.model() == self.model(),
    {
        DownstreamHttpError {
            kind: self.kind.clone(),
            code: self.code.clone(),
            message: self.message.clone(),
            retryable: self.retryable,
            retry_class: self.retry_class.clone(),
            retry_after_ms: self.retry_after_ms,
            idempotency_hint: self.idempotency_hint.clone(),
            caller_retry_decision: self.caller_retry_decision.clone(),
            retry_safety: self.retry_safety.clone(),
            backoff_strategy: self.backoff_strategy.clone(),
            minimum_backoff_ms: self.minimum_backoff_ms,
            suggested_action: self.suggested_action.clone(),
            status_code: self.status_code,
            details: self.details.duplicate(),
        }
    }
}

/// Whether the call may have an effect each time it is sent, in words.
pub open spec fn idempotency_hint(context: RetrySafetyContext) -> Seq<char> {
    match context {
        RetrySafetyContext::ReadOnlyProbe => "idempotent_read_only"@,
        RetrySafetyContext::PotentiallyNonIdempotentJsonCall => "potentially_non_idempotent"@,
    }
}

/// `error` with its retry guidance filled in for the kind of call.
pub open spec fn guided(error: ErrorModel, context: RetrySafetyContext) -> ErrorModel {
    if !error.retryable {
        ErrorModel {
            idempotency_hint: idempotency_hint(context),
            caller_retry_decision: "do_not_retry"@,
            retry_safety: "do_not_retry"@,
            backoff_strategy: "no_retry"@,
            minimum_backoff_ms: None,
            ..error
        }
    } else {
        let delayed = error.retry_after_ms is Some;
        ErrorModel {
            idempotency_hint: idempotency_hint(context),
            caller_retry_decision: match context {
                RetrySafetyContext::ReadOnlyProbe => if delayed {
                    "automatic_retry_after_delay"@
                } else {
                    "automatic_retry_with_backoff"@
                },
                RetrySafetyContext::PotentiallyNonIdempotentJsonCall => if delayed {
                    "confirm_idempotency_then_retry_after_delay"@
                } else {
                    "confirm_idempotency_then_retry_with_backoff"@
                },
            },
            retry_safety: match context {
                RetrySafetyContext::ReadOnlyProbe => "safe_for_automatic_retry"@,
                RetrySafetyContext::PotentiallyNonIdempotentJsonCall =>
                    "review_idempotency_before_retry"@,
            },
            backoff_strategy: if delayed {
                "respect_retry_after"@
            } else {
                "exponential_backoff"@
            },
            minimum_backoff_ms: if delayed {
                error.retry_after_ms
            } else {
                Some(DEFAULT_BACKOFF_BASE_MS)
            },
            suggested_action: match context {
                RetrySafetyContext::ReadOnlyProbe => error.suggested_action,
                RetrySafetyContext::PotentiallyNonIdempotentJsonCall => if delayed {
                    "review_idempotency_then_retry_after_delay"@
                } else {
                    "review_idempotency_then_retry_with_backoff"@
                },
            },
            ..error
        }
    }
}

/// Computes [`guided`].
pub fn with_retry_guidance(
    error: DownstreamHttpError,
    retry_safety_context: RetrySafetyContext,
) -> (result: DownstreamHttpError)
    ensures
        result.model() == guided(error.model(), retry_safety_context),
{
    let mut error = error;
    let hint = match retry_safety_context {
        RetrySafetyContext::ReadOnlyProbe => "idempotent_read_only",
        RetrySafetyContext::PotentiallyNonIdempotentJsonCall => "potentially_non_idempotent",
    };
    error.idempotency_hint = hint.to_owned();
    if !error.retryable {
        error.caller_retry_decision = "do_not_retry".to_owned();
        error.retry_safety = "do_not_retry".to_owned();
        error.backoff_strategy = "no_retry".to_owned();
        error.minimum_backoff_ms = None;
        return error;
    }
    let delayed = error.retry_after_ms.is_some();
    match retry_safety_context {
        RetrySafetyContext::ReadOnlyProbe => {
            let decision = if delayed {
                "automatic_retry_after_delay"
            } else {
                "automatic_retry_with_backoff"
            };
            error.retry_safety = "safe_for_automatic_retry".to_owned();
            error.caller_retry_decision = decision.to_owned();
        },
        RetrySafetyContext::PotentiallyNonIdempotentJsonCall => {
            let (action, decision) = if delayed {
                (
                    "review_idempotency_then_retry_after_delay",
                    "confirm_idempotency_then_retry_after_delay",
                )
            } else {
                (
                    "review_idempotency_then_retry_with_backoff",
                    "confirm_idempotency_then_retry_with_backoff",
                )
            };
            error.retry_safety = "review_idempotency_before_retry".to_owned();
            error.suggested_action = action.to_owned();
            error.caller_retry_decision = decision.to_owned();
        },
    }
    if delayed {
        error.backoff_strategy = "respect_retry_after".to_owned();
        error.minimum_backoff_ms = error.retry_after_ms;
    } else {
        error.backoff_strategy = "exponential_backoff".to_owned();
        error.minimum_backoff_ms = Some(DEFAULT_BACKOFF_BASE_MS);
    }
    error
}

/// A number in the details of an error.
pub open spec fn json_number(n: nat) -> crate::json::Json {
    crate::json::Json::Number(crate::text::decimal(n))
}

/// Status codes in the details of an error.
pub open spec fn json_numbers(codes: Seq<u16>) -> Seq<crate::json::Json> {
    codes.map_values(|code: u16| json_number(code as nat))
}

/// Whether a status code that was not expected calls for a retry.
pub open spec fn is_retryable(status_code: u16) -> bool {
    status_code == 429 || status_code >= 500
}

/// The details of an error about a status code.
pub open spec fn status_details(
    expected_status_codes: Seq<u16>,
    actual_status_code: u16,
    retry_after_ms: Option<u64>,
) -> crate::json::Json {
    crate::json::Json::Object(
        seq![
            ("actualStatusCode"@, json_number(actual_status_code as nat)),
            (
                "expectedStatusCodes"@,
                crate::json::Json::Array(json_numbers(expected_status_codes)),
            ),
            (
                "retryAfterMs"@,
                match retry_after_ms {
                    Some(delay) => json_number(delay as nat),
                    None => crate::json::Json::Null,
                },
            ),
        ],
    )
}

/// The error about a status code, before its retry guidance is filled in.
pub open spec fn status_error(
    expected_status_codes: Seq<u16>,
    actual_status_code: u16,
    retry_after_ms: Option<u64>,
) -> ErrorModel {
    let retryable = is_retryable(actual_status_code);
    ErrorModel {
        kind: "unexpected_status_code"@,
        code: "mcpg.downstream_http.unexpected_status_code"@,
        message: "Downstream response status "@ + crate::text::decimal(actual_status_code as nat)
            + " did not match the configured expected status codes."@,
        retryable,
        retry_class: if !retryable {
            "do_not_retry"@
        } else if retry_after_ms is Some {
            "after_delay"@
        } else {
            "with_backoff"@
        },
        retry_after_ms,
        idempotency_hint: "pending_idempotency_evaluation"@,
        caller_retry_decision: "pending_caller_retry_decision"@,
        retry_safety: "pending_retry_safety_evaluation"@,
        backoff_strategy: "pending_backoff_strategy_evaluation"@,
        minimum_backoff_ms: None,
        suggested_action: if !retryable {
            "inspect_downstream_http_contract"@
        } else if retry_after_ms is Some {
            "retry_after_indicated_delay"@
        } else {
            "retry_with_backoff_or_check_downstream_capacity"@
        },
        status_code: Some(actual_status_code),
        details: status_details(expected_status_codes, actual_status_code, retry_after_ms),
    }
}

fn numbers(codes: &[u16]) -> (items: Vec<JsonValue>)
    ensures
        crate::json::item_models(items@) == json_numbers(codes@),
{
    let mut items: Vec<JsonValue> = Vec::new();
    let mut i: usize = 0;
    while i < codes.len()
        invariant
            i <= codes@.len(),
            items@.len() == i,
            forall|j: int|
                0 <= j < i ==> (#[trigger] items@[j]).model() == json_number(codes@[j] as nat),
        decreases codes@.len() - i,
    {
        items.push(JsonValue::number(codes[i] as u64));
        i = i + 1;
    }
    assert(crate::json::item_models(items@) =~= json_numbers(codes@));
    items
}

fn status_details_of(
    expected_status_codes: &[u16],
    actual_status_code: u16,
    retry_after_ms: Option<u64>,
) -> (details: JsonValue)
    ensures
        details.model() == status_details(
            expected_status_codes@,
            actual_status_code,
            retry_after_ms,
        ),
{
    let delay = match retry_after_ms {
        Some(delay) => JsonValue::number(delay),
        None => JsonValue::Null,
    };
    let actual = JsonValue::number(actual_status_code as u64);
    let expected = JsonValue::Array(numbers(expected_status_codes));
    assert(delay.model() == (match retry_after_ms {
        Some(delay) => json_number(delay as nat),
        None => crate::json::Json::Null,
    }));
    assert(expected.model() == crate::json::Json::Array(json_numbers(expected_status_codes@)));
    let ghost models = (actual.model(), expected.model(), delay.model());
    let mut entries: Vec<(String, JsonValue)> = Vec::new();
    entries.push(("actualStatusCode".to_owned(), actual));
    entries.push(("expectedStatusCodes".to_owned(), expected));
    entries.push(("retryAfterMs".to_owned(), delay));
    let ghost entry_models = crate::json::entry_models(entries@);
    assert(entry_models.len() == 3);
    assert(entry_models[0] == ("actualStatusCode"@, models.0));
    assert(entry_models[1] == ("expectedStatusCodes"@, models.1));
    assert(entry_models[2] == ("retryAfterMs"@, models.2));
    let details = JsonValue::Object(entries);
    assert(details.model()->Object_0 =~= status_details(
        expected_status_codes@,
        actual_status_code,
        retry_after_ms,
    )->Object_0);
    details
}

fn holds_code(codes: &[u16], code: u16) -> (yes: bool)
    ensures
        yes == codes@.contains(code),
{
    let mut i: usize = 0;
    while i < codes.len()
        invariant
            i <= codes@.len(),
            forall|j: int| 0 <= j < i ==> #[trigger] codes@[j] != code,
        decreases codes@.len() - i,
    {
        if codes[i] == code {
            return true;
        }
        i = i + 1;
    }
    false
}

/// The error for a status code that is not among the expected ones; `None` where
/// it is.
pub fn validate_expected_status_codes(
    expected_status_codes: &[u16],
    actual_status_code: u16,
    retry_after_ms: Option<u64>,
    retry_safety_context: RetrySafetyContext,
) -> (error: Option<DownstreamHttpError>)
    ensures
        if expected_status_codes@.contains(actual_status_code) {
            error is None
        } else {
            error matches Some(error) && error.model() == guided(
                status_error(expected_status_codes@, actual_status_code, retry_after_ms),
                retry_safety_context,
            )
        },
{
    if holds_code(expected_status_codes, actual_status_code) {
        return None;
    }
    let retryable = actual_status_code == 429 || actual_status_code >= 500;
    let (retry_class, suggested_action) = if !retryable {
        ("do_not_retry", "inspect_downstream_http_contract")
    } else if retry_after_ms.is_some() {
        ("after_delay", "retry_after_indicated_delay")
    } else {
        ("with_backoff", "retry_with_backoff_or_check_downstream_capacity")
    };
    let mut message = "Downstream response status ".to_owned();
    message.append(decimal_text(actual_status_code as u64).as_str());
    message.append(" did not match the configured expected status codes.");
    let error = DownstreamHttpError {
        kind: "unexpected_status_code".to_owned(),
        code: "mcpg.downstream_http.unexpected_status_code".to_owned(),
        message,
        retryable,
        retry_class: retry_class.to_owned(),
        retry_after_ms,
        idempotency_hint: "pending_idempotency_evaluation".to_owned(),
        caller_retry_decision: "pending_caller_retry_decision".to_owned(),
        retry_safety: "pending_retry_safety_evaluation".to_owned(),
        backoff_strategy: "pending_backoff_strategy_evaluation".to_owned(),
        minimum_backoff_ms: None,
        suggested_action: suggested_action.to_owned(),
        status_code: Some(actual_status_code),
        details: status_details_of(expected_status_codes, actual_status_code, retry_after_ms),
    };
    assert(error.model() =~= status_error(
        expected_status_codes@,
        actual_status_code,
        retry_after_ms,
    ));
    Some(with_retry_guidance(error, retry_safety_context))
}

/// Details with one entry.
pub open spec fn one_detail(key: Seq<char>, value: crate::json::Json) -> crate::json::Json {
    crate::json::Json::Object(seq![(key, value)])
}

fn one_detail_of(key: &str, value: JsonValue) -> (details: JsonValue)
    ensures
        details.model() == one_detail(key@, value.model()),
{
    let mut entries: Vec<(String, JsonValue)> = Vec::new();
    entries.push((key.to_owned(), value));
    let details = JsonValue::Object(entries);
    assert(details.model()->Object_0 =~= seq![(key@, value.model())]);
    details
}

/// The error for a call that got no response, before its retry guidance is
/// filled in.
pub open spec fn transport_error(error: Seq<char>) -> ErrorModel {
    ErrorModel {
        kind: "transport_error"@,
        code: "mcpg.downstream_http.transport_error"@,
        message: "Downstream HTTP execution failed before a valid response was received."@,
        retryable: true,
        retry_class: "with_backoff"@,
        retry_after_ms: None,
        idempotency_hint: "pending_idempotency_evaluation"@,
        caller_retry_decision: "pending_caller_retry_decision"@,
        retry_safety: "safe_for_automatic_retry"@,
        backoff_strategy: "exponential_backoff"@,
        minimum_backoff_ms: Some(DEFAULT_BACKOFF_BASE_MS),
        suggested_action: "check_downstream_connectivity_and_retry"@,
        status_code: None,
        details: one_detail("error"@, crate::json::Json::String(error)),
    }
}

/// The error for a call that got no response.
pub fn transport_downstream_error(
    error: &str,
    retry_safety_context: RetrySafetyContext,
) -> (result: DownstreamHttpError)
    ensures
        result.model() == guided(transport_error(error@), retry_safety_context),
{
    let base = DownstreamHttpError {
        kind: "transport_error".to_owned(),
        code: "mcpg.downstream_http.transport_error".to_owned(),
        message:
            "Downstream HTTP execution failed before a valid response was received.".to_owned(),
        retryable: true,
        retry_class: "with_backoff".to_owned(),
        retry_after_ms: None,
        idempotency_hint: "pending_idempotency_evaluation".to_owned(),
        caller_retry_decision: "pending_caller_retry_decision".to_owned(),
        retry_safety: "safe_for_automatic_retry".to_owned(),
        backoff_strategy: "exponential_backoff".to_owned(),
        minimum_backoff_ms: Some(DEFAULT_BACKOFF_BASE_MS),
        suggested_action: "check_downstream_connectivity_and_retry".to_owned(),
        status_code: None,
        details: one_detail_of("error", JsonValue::String(error.to_owned())),
    };
    assert(base.model() =~= transport_error(error@));
    with_retry_guidance(base, retry_safety_context)
}

/// The error for a response whose content is not what the call required. It is
/// never retried.
pub open spec fn content_error(
    kind: Seq<char>,
    code: Seq<char>,
    message: Seq<char>,
    suggested_action: Seq<char>,
    details: crate::json::Json,
) -> ErrorModel {
    ErrorModel {
        kind,
        code,
        message,
        retryable: false,
        retry_class: "do_not_retry"@,
        retry_after_ms: None,
        idempotency_hint: "potentially_non_idempotent"@,
        caller_retry_decision: "do_not_retry"@,
        retry_safety: "do_not_retry"@,
        backoff_strategy: "no_retry"@,
        minimum_backoff_ms: None,
        suggested_action,
        status_code: None,
        details,
    }
}

fn content_error_of(
    kind: &str,
    code: &str,
    message: &str,
    suggested_action: &str,
    details: JsonValue,
) -> (error: DownstreamHttpError)
    ensures
        error.model() == content_error(
            kind@,
            code@,
            message@,
            suggested_action@,
            details.model(),
        ),
{
    DownstreamHttpError {
        kind: kind.to_owned(),
        code: code.to_owned(),
        message: message.to_owned(),
        retryable: false,
        retry_class: "do_not_retry".to_owned(),
        retry_after_ms: None,
        idempotency_hint: "potentially_non_idempotent".to_owned(),
        caller_retry_decision: "do_not_retry".to_owned(),
        retry_safety: "do_not_retry".to_owned(),
        backoff_strategy: "no_retry".to_owned(),
        minimum_backoff_ms: None,
        suggested_action: suggested_action.to_owned(),
        status_code: None,
        details,
    }
}

/// The error for a response that is not JSON.
pub open spec fn content_type_error(content_type: Option<Seq<char>>) -> ErrorModel {
    content_error(
        "invalid_content_type"@,
        "mcpg.downstream_http.invalid_content_type"@,
        "Downstream HTTP JSON call required a JSON response content type, but the response was not JSON."@,
        "inspect_downstream_response_content_type"@,
        one_detail(
            "responseContentType"@,
            match content_type {
                Some(text) => crate::json::Json::String(text),
                None => crate::json::Json::Null,
            },
        ),
    )
}

/// The error for a response that says that it is JSON and is not.
pub open spec fn json_body_error(parse_error: Seq<char>) -> ErrorModel {
    content_error(
        "invalid_json_body"@,
        "mcpg.downstream_http.invalid_json_body"@,
        "Downstream HTTP JSON call returned a JSON content type, but the body was not valid JSON."@,
        "inspect_downstream_json_payload"@,
        one_detail("parseError"@, crate::json::Json::String(parse_error)),
    )
}

fn json_content_type_downstream_error(content_type: &Option<String>) -> (error: DownstreamHttpError)
    ensures
        error.model() == content_type_error(crate::text::optional_text(*content_type)),
{
    let value = match content_type {
        Some(text) => JsonValue::String(text.clone()),
        None => JsonValue::Null,
    };
    content_error_of(
        "invalid_content_type",
        "mcpg.downstream_http.invalid_content_type",
        "Downstream HTTP JSON call required a JSON response content type, but the response was not JSON.",
        "inspect_downstream_response_content_type",
        one_detail_of("responseContentType", value),
    )
}

fn json_body_downstream_error(parse_error: &str) -> (error: DownstreamHttpError)
    ensures
        error.model() == json_body_error(parse_error@),
{
    content_error_of(
        "invalid_json_body",
        "mcpg.downstream_http.invalid_json_body",
        "Downstream HTTP JSON call returned a JSON content type, but the body was not valid JSON.",
        "inspect_downstream_json_payload",
        one_detail_of("parseError", JsonValue::String(parse_error.to_owned())),
    )
}

/// Whether a content type names JSON: `application/json`, or a type that ends in
/// `+json`. Parameters, white space around the type and its case do not matter.
pub open spec fn names_json(content_type: Seq<char>) -> bool {
    let media_type = crate::text::lowercase(
        crate::text::trim(crate::text::before(content_type, ';')),
    );
    media_type == "application/json"@ || "+json"@.is_suffix_of(media_type)
}

/// Decides [`names_json`].
pub fn is_json_content_type(content_type: &str) -> (yes: bool)
    ensures
        yes == names_json(content_type@),
{
    let chars = chars_of(content_type);
    let media_type = lowercased(trimmed(part_before(chars.as_slice(), ';')));
    is_text(media_type.as_slice(), "application/json") || ends_with(media_type.as_slice(), "+json")
}

/// What a response body comes to: the JSON value, the message of the parse error
/// and the error for the envelope, each where there is one.
pub type JsonOutcome = (Option<serde_json::Value>, Option<String>, Option<DownstreamHttpError>);

/// What the outcome is for a body that was parsed.
pub open spec fn parse_outcome(
    outcome: JsonOutcome,
    parsed: Result<serde_json::Value, Seq<char>>,
    require_json_response: bool,
) -> bool {
    match parsed {
        Ok(value) => outcome.0 == Some(value) && outcome.1 is None && outcome.2 is None,
        Err(message) => {
            &&& outcome.0 is None
            &&& outcome.1 matches Some(text)
            &&& text@ == message
            &&& if require_json_response {
                outcome.2 matches Some(error) && error.model() == json_body_error(message)
            } else {
                outcome.2 is None
            }
        },
    }
}

/// What the outcome is for a response that does not say that it is JSON.
pub open spec fn other_outcome(
    outcome: JsonOutcome,
    content_type: Option<Seq<char>>,
    require_json_response: bool,
) -> bool {
    &&& outcome.0 is None
    &&& outcome.1 is None
    &&& if require_json_response {
        outcome.2 matches Some(error) && error.model() == content_type_error(content_type)
    } else {
        outcome.2 is None
    }
}

/// Judges a body that was parsed as JSON.
pub fn validate_parsed_json(
    parsed: Result<serde_json::Value, String>,
    require_json_response: bool,
) -> (outcome: JsonOutcome)
    ensures
        parse_outcome(outcome, crate::json::parsed_model(parsed), require_json_response),
{
    match parsed {
        Ok(value) => (Some(value), None, None),
        Err(parse_error) => {
            let error = if require_json_response {
                Some(json_body_downstream_error(parse_error.as_str()))
            } else {
                None
            };
            (None, Some(parse_error), error)
        },
    }
}

/// Parses the body of a response that says that it is JSON. A body that does not
/// parse, and a response that does not say so, are errors where the call requires
/// JSON.
pub fn parse_and_validate_json_response(
    response: &HttpResponseSummary,
    require_json_response: bool,
) -> (outcome: JsonOutcome)
    requires
        response.content_type matches Some(content_type) ==> !names_json(content_type@)
            || response.body@.len() <= crate::text::MAX_PARSED_CHARS,
    ensures
        if response.content_type matches Some(content_type) && names_json(content_type@) {
            parse_outcome(
                outcome,
                crate::json::json_parse(response.body@),
                require_json_response,
            )
        } else {
            other_outcome(
                outcome,
                crate::text::optional_text(response.content_type),
                require_json_response,
            )
        },
{
    let is_json = match &response.content_type {
        Some(content_type) => is_json_content_type(content_type.as_str()),
        None => false,
    };
    if !is_json {
        if require_json_response {
            return (None, None, Some(json_content_type_downstream_error(&response.content_type)));
        }
        return (None, None, None);
    }
    validate_parsed_json(parse_json(response.body.as_str()), require_json_response)
}

/// A read-only call that can be retried is safe to retry without review, and no
/// other call is.
pub proof fn law_only_read_only_calls_are_safe_to_retry(
    error: ErrorModel,
    context: RetrySafetyContext,
)
    ensures
        guided(error, context).retry_safety == "safe_for_automatic_retry"@ <==> error.retryable
            && context is ReadOnlyProbe,
        guided(error, context).retry_safety == "review_idempotency_before_retry"@
            <==> error.retryable && context is PotentiallyNonIdempotentJsonCall,
        guided(error, context).retry_safety == "do_not_retry"@ <==> !error.retryable,
{
    reveal_strlit("safe_for_automatic_retry");
    reveal_strlit("review_idempotency_before_retry");
    reveal_strlit("do_not_retry");
    assert("safe_for_automatic_retry"@.len() == 24);
    assert("review_idempotency_before_retry"@.len() == 31);
    assert("do_not_retry"@.len() == 12);
}

/// A retry never comes sooner than the response asks for: the least delay is the
/// one that it asks for, or else the default. An error that is not to be retried
/// has no delay.
pub proof fn law_backoff_respects_retry_after(error: ErrorModel, context: RetrySafetyContext)
    ensures
        guided(error, context).minimum_backoff_ms == (if !error.retryable {
            None
        } else if error.retry_after_ms is Some {
            error.retry_after_ms
        } else {
            Some(DEFAULT_BACKOFF_BASE_MS)
        }),
        guided(error, context).retry_after_ms == error.retry_after_ms,
        guided(error, context).retryable == error.retryable,
{
}

/// Filling in the guidance again changes nothing, and what the error is about
/// stays as it was.
pub proof fn law_guidance_is_stable(error: ErrorModel, context: RetrySafetyContext)
    ensures
        guided(guided(error, context), context) == guided(error, context),
        guided(error, context).kind == error.kind,
        guided(error, context).code == error.code,
        guided(error, context).message == error.message,
        guided(error, context).status_code == error.status_code,
        guided(error, context).details == error.details,
{
}

/// A status code that was not expected is retried exactly where it is 429 or in
/// the 500s or above, and a call that got no response always can be.
pub proof fn law_retryable_status_codes(
    expected_status_codes: Seq<u16>,
    actual_status_code: u16,
    retry_after_ms: Option<u64>,
    context: RetrySafetyContext,
    error: Seq<char>,
)
    ensures
        guided(
            status_error(expected_status_codes, actual_status_code, retry_after_ms),
            context,
        ).retryable <==> actual_status_code == 429 || actual_status_code >= 500,
        guided(transport_error(error), context).retryable,
{
}

/// The lengths of the words of the guidance tell them apart.
proof fn lemma_guidance_words()
    ensures
        "do_not_retry"@.len() == 12,
        "automatic_retry_after_delay"@.len() == 27,
        "automatic_retry_with_backoff"@.len() == 28,
        "confirm_idempotency_then_retry_after_delay"@.len() == 42,
        "confirm_idempotency_then_retry_with_backoff"@.len() == 43,
        "no_retry"@.len() == 8,
        "respect_retry_after"@.len() == 19,
        "exponential_backoff"@[0] == 'e',
        "respect_retry_after"@[0] == 'r',
        "exponential_backoff"@.len() == 19,
        "idempotent_read_only"@.len() == 20,
        "potentially_non_idempotent"@.len() == 26,
        "after_delay"@.len() == 11,
        "with_backoff"@.len() == 12,
        "do_not_retry"@[0] == 'd',
        "with_backoff"@[0] == 'w',
{
    reveal_strlit("do_not_retry");
    reveal_strlit("automatic_retry_after_delay");
    reveal_strlit("automatic_retry_with_backoff");
    reveal_strlit("confirm_idempotency_then_retry_after_delay");
    reveal_strlit("confirm_idempotency_then_retry_with_backoff");
    reveal_strlit("no_retry");
    reveal_strlit("respect_retry_after");
    reveal_strlit("exponential_backoff");
    reveal_strlit("idempotent_read_only");
    reveal_strlit("potentially_non_idempotent");
    reveal_strlit("after_delay");
    reveal_strlit("with_backoff");
}

/// What a caller is told to do agrees with how safe a retry is. An automatic retry is
/// advised exactly where a read-only call can be retried, a review exactly where a call
/// can be retried that may have an effect each time, and no retry exactly where the
/// call cannot be retried. A retry waits for the delay that the response asks for
/// exactly where it asks for one.
pub proof fn law_decision_agrees_with_safety(
    error: DownstreamHttpError,
    context: RetrySafetyContext,
    result: DownstreamHttpError,
)
    requires
        call_ensures(with_retry_guidance, (error, context), result),
    ensures
        result.caller_retry_decision@ == "automatic_retry_after_delay"@ <==> error.retryable
            && context is ReadOnlyProbe && error.retry_after_ms is Some,
        result.caller_retry_decision@ == "automatic_retry_with_backoff"@ <==> error.retryable
            && context is ReadOnlyProbe && error.retry_after_ms is None,
        result.caller_retry_decision@ == "confirm_idempotency_then_retry_after_delay"@
            <==> error.retryable && context is PotentiallyNonIdempotentJsonCall
            && error.retry_after_ms is Some,
        result.caller_retry_decision@ == "confirm_idempotency_then_retry_with_backoff"@
            <==> error.retryable && context is PotentiallyNonIdempotentJsonCall
            && error.retry_after_ms is None,
        result.caller_retry_decision@ == "do_not_retry"@ <==> !error.retryable,
        result.retry_safety@ == "safe_for_automatic_retry"@ <==> error.retryable
            && context is ReadOnlyProbe,
        result.retry_safety@ == "review_idempotency_before_retry"@ <==> error.retryable
            && context is PotentiallyNonIdempotentJsonCall,
        result.retry_safety@ == "do_not_retry"@ <==> !error.retryable,
{
    lemma_guidance_words();
    law_only_read_only_calls_are_safe_to_retry(error.model(), context);
    assert(result.model().caller_retry_decision == result.caller_retry_decision@);
    assert(result.model().retry_safety == result.retry_safety@);
}

/// The spacing of retries follows the response: it is the delay that the response asks
/// for, or else one second that grows with each retry, and there is none where the call
/// is not to be retried.
pub proof fn law_spacing_follows_the_response(
    error: DownstreamHttpError,
    context: RetrySafetyContext,
    result: DownstreamHttpError,
)
    requires
        call_ensures(with_retry_guidance, (error, context), result),
    ensures
        result.backoff_strategy@ == "no_retry"@ <==> !error.retryable,
        result.backoff_strategy@ == "respect_retry_after"@ <==> error.retryable
            && error.retry_after_ms is Some,
        result.backoff_strategy@ == "exponential_backoff"@ <==> error.retryable
            && error.retry_after_ms is None,
        result.minimum_backoff_ms is None <==> !error.retryable,
        error.retryable && error.retry_after_ms is Some ==> result.minimum_backoff_ms
            == error.retry_after_ms,
        error.retryable && error.retry_after_ms is None ==> result.minimum_backoff_ms == Some(
            1_000u64,
        ),
{
    lemma_guidance_words();
    assert(result.model().backoff_strategy == result.backoff_strategy@);
    assert(result.model().minimum_backoff_ms == result.minimum_backoff_ms);
}

/// The guidance says what kind of call it is about, and sends the operator to a review
/// exactly where a call can be retried that may have an effect each time. It changes
/// nothing else of the error.
pub proof fn law_guidance_changes_the_advice_alone(
    error: DownstreamHttpError,
    context: RetrySafetyContext,
    result: DownstreamHttpError,
)
    requires
        call_ensures(with_retry_guidance, (error, context), result),
    ensures
        result.idempotency_hint@ == "idempotent_read_only"@ <==> context is ReadOnlyProbe,
        result.idempotency_hint@ == "potentially_non_idempotent"@
            <==> context is PotentiallyNonIdempotentJsonCall,
        !error.retryable || context is ReadOnlyProbe ==> result.suggested_action@
            == error.suggested_action@,
        error.retryable && context is PotentiallyNonIdempotentJsonCall ==> result.suggested_action@
            == (if error.retry_after_ms is Some {
            "review_idempotency_then_retry_after_delay"@
        } else {
            "review_idempotency_then_retry_with_backoff"@
        }),
        result.kind@ == error.kind@,
        result.code@ == error.code@,
        result.message@ == error.message@,
        result.retryable == error.retryable,
        result.retry_class@ == error.retry_class@,
        result.retry_after_ms == error.retry_after_ms,
        result.status_code == error.status_code,
        result.details.model() == error.details.model(),
{
    lemma_guidance_words();
    let (before, after) = (error.model(), result.model());
    assert(after == guided(before, context));
    assert(after.idempotency_hint == result.idempotency_hint@);
    assert(after.suggested_action == result.suggested_action@ && before.suggested_action
        == error.suggested_action@);
    assert(after.kind == result.kind@ && before.kind == error.kind@);
    assert(after.code == result.code@ && before.code == error.code@);
    assert(after.message == result.message@ && before.message == error.message@);
    assert(after.retry_class == result.retry_class@ && before.retry_class == error.retry_class@);
}

/// A status code is an error exactly where it is not among the expected ones. The error
/// tells the code and the delay that the response asks for, and can be retried exactly
/// where the code is 429 or at least 500.
pub proof fn law_unexpected_status_is_an_error(
    expected: &[u16],
    actual: u16,
    retry_after_ms: Option<u64>,
    context: RetrySafetyContext,
    error: Option<DownstreamHttpError>,
)
    requires
        call_ensures(
            validate_expected_status_codes,
            (expected, actual, retry_after_ms, context),
            error,
        ),
    ensures
        error is None <==> exists|i: int| 0 <= i < expected@.len() && #[trigger] expected@[i]
            == actual,
        error matches Some(error) ==> {
            &&& error.status_code == Some(actual)
            &&& error.retry_after_ms == retry_after_ms
            &&& error.retryable <==> actual == 429 || actual >= 500
            &&& error.kind@ == "unexpected_status_code"@
            &&& error.code@ == "mcpg.downstream_http.unexpected_status_code"@
            &&& error.retry_class@ == "do_not_retry"@ <==> !error.retryable
            &&& error.retry_class@ == "after_delay"@ <==> error.retryable && retry_after_ms is Some
            &&& error.retry_class@ == "with_backoff"@ <==> error.retryable && retry_after_ms is None
            &&& !error.retryable ==> error.suggested_action@ == "inspect_downstream_http_contract"@
        },
{
    lemma_guidance_words();
    if error is Some {
        let model = error->Some_0.model();
        assert(model.kind == error->Some_0.kind@);
        assert(model.retry_class == error->Some_0.retry_class@);
        assert(model.suggested_action == error->Some_0.suggested_action@);
        assert(model.code == error->Some_0.code@);
    }
    assert(expected@.contains(actual) <==> exists|i: int|
        0 <= i < expected@.len() && #[trigger] expected@[i] == actual);
}

/// What a caller is told about an unexpected status code: to retry without review only
/// where the code allows a retry and the call is read-only, after the delay that the
/// response asks for where it asks for one.
pub proof fn law_status_error_advises_the_caller(
    expected: &[u16],
    actual: u16,
    retry_after_ms: Option<u64>,
    context: RetrySafetyContext,
    error: Option<DownstreamHttpError>,
)
    requires
        call_ensures(
            validate_expected_status_codes,
            (expected, actual, retry_after_ms, context),
            error,
        ),
        error is Some,
    ensures
        ({
            let error = error->Some_0;
            let retryable = actual == 429 || actual >= 500;
            &&& error.caller_retry_decision@ == (if !retryable {
                "do_not_retry"@
            } else if context is ReadOnlyProbe {
                if retry_after_ms is Some {
                    "automatic_retry_after_delay"@
                } else {
                    "automatic_retry_with_backoff"@
                }
            } else {
                if retry_after_ms is Some {
                    "confirm_idempotency_then_retry_after_delay"@
                } else {
                    "confirm_idempotency_then_retry_with_backoff"@
                }
            })
            &&& error.minimum_backoff_ms == (if !retryable {
                None
            } else if retry_after_ms is Some {
                retry_after_ms
            } else {
                Some(1_000u64)
            })
            &&& context is ReadOnlyProbe && retryable ==> error.suggested_action@ == (
            if retry_after_ms is Some {
                "retry_after_indicated_delay"@
            } else {
                "retry_with_backoff_or_check_downstream_capacity"@
            })
        }),
{
    let model = error->Some_0.model();
    assert(model.caller_retry_decision == error->Some_0.caller_retry_decision@);
    assert(model.minimum_backoff_ms == error->Some_0.minimum_backoff_ms);
    assert(model.suggested_action == error->Some_0.suggested_action@);
}

/// The error about a status code tells it in its message and its details, with all the
/// codes that were expected, in order, and the delay that the response asks for.
pub proof fn law_status_error_tells_the_codes(
    expected: &[u16],
    actual: u16,
    retry_after_ms: Option<u64>,
    context: RetrySafetyContext,
    error: Option<DownstreamHttpError>,
)
    requires
        call_ensures(
            validate_expected_status_codes,
            (expected, actual, retry_after_ms, context),
            error,
        ),
        error is Some,
    ensures
        error->Some_0.message@ == "Downstream response status "@ + crate::text::decimal(
            actual as nat,
        ) + " did not match the configured expected status codes."@,
        error->Some_0.details.model() matches crate::json::Json::Object(entries) && {
            &&& entries.len() == 3
            &&& entries[0] == (
                "actualStatusCode"@,
                crate::json::Json::Number(crate::text::decimal(actual as nat)),
            )
            &&& entries[1].0 == "expectedStatusCodes"@
            &&& entries[1].1 matches crate::json::Json::Array(codes)
            &&& codes.len() == expected@.len()
            &&& forall|i: int|
                0 <= i < codes.len() ==> #[trigger] codes[i] == crate::json::Json::Number(
                    crate::text::decimal(expected@[i] as nat),
                )
            &&& entries[2].0 == "retryAfterMs"@
            &&& entries[2].1 is Null <==> retry_after_ms is None
            &&& retry_after_ms matches Some(delay) ==> entries[2].1 == crate::json::Json::Number(
                crate::text::decimal(delay as nat),
            )
        },
{
    let model = error->Some_0.model();
    assert(model.message == error->Some_0.message@);
    assert(model.details == status_details(expected@, actual, retry_after_ms));
}

/// A call that got no response can always be retried, with a delay that grows: without
/// review where it is read-only, and else after one. The error tells what went wrong.
pub proof fn law_transport_error_can_be_retried(
    error: &str,
    context: RetrySafetyContext,
    result: DownstreamHttpError,
)
    requires
        call_ensures(transport_downstream_error, (error, context), result),
    ensures
        result.retryable,
        result.retry_after_ms is None,
        result.status_code is None,
        result.kind@ == "transport_error"@,
        result.code@ == "mcpg.downstream_http.transport_error"@,
        result.retry_class@ == "with_backoff"@,
        result.backoff_strategy@ == "exponential_backoff"@,
        result.minimum_backoff_ms == Some(1_000u64),
        result.caller_retry_decision@ == (if context is ReadOnlyProbe {
            "automatic_retry_with_backoff"@
        } else {
            "confirm_idempotency_then_retry_with_backoff"@
        }),
        result.retry_safety@ == (if context is ReadOnlyProbe {
            "safe_for_automatic_retry"@
        } else {
            "review_idempotency_before_retry"@
        }),
        result.idempotency_hint@ == (if context is ReadOnlyProbe {
            "idempotent_read_only"@
        } else {
            "potentially_non_idempotent"@
        }),
        result.suggested_action@ == (if context is ReadOnlyProbe {
            "check_downstream_connectivity_and_retry"@
        } else {
            "review_idempotency_then_retry_with_backoff"@
        }),
        result.details.model() == crate::json::Json::Object(
            seq![("error"@, crate::json::Json::String(error@))],
        ),
{
    let model = result.model();
    assert(model.kind == result.kind@ && model.code == result.code@);
    assert(model.retry_class == result.retry_class@);
    assert(model.backoff_strategy == result.backoff_strategy@);
    assert(model.caller_retry_decision == result.caller_retry_decision@);
    assert(model.retry_safety == result.retry_safety@);
    assert(model.idempotency_hint == result.idempotency_hint@);
    assert(model.suggested_action == result.suggested_action@);
}

/// A content type names JSON exactly where its media type is `application/json` or ends
/// in `+json`, in any case, whatever white space stands around it and whatever
/// parameters follow.
pub proof fn law_json_media_types(
    front: Seq<char>,
    media_type: Seq<char>,
    back: Seq<char>,
    parameters: Seq<char>,
)
    requires
        forall|i: int|
            0 <= i < front.len() ==> crate::text::is_white_space(#[trigger] front[i]),
        forall|i: int| 0 <= i < back.len() ==> crate::text::is_white_space(#[trigger] back[i]),
        media_type.len() > 0 ==> !crate::text::is_white_space(media_type.first())
            && !crate::text::is_white_space(media_type.last()),
        !media_type.contains(';'),
        parameters.len() > 0 ==> parameters.first() == ';',
    ensures
        names_json(front + media_type + back + parameters) <==> {
            ||| crate::text::eq_ignore_case(media_type, "application/json"@)
            ||| media_type.len() >= 5 && crate::text::eq_ignore_case(
                media_type.skip(media_type.len() - 5),
                "+json"@,
            )
        },
{
    let head = front + media_type + back;
    let text = head + parameters;
    assert forall|i: int| 0 <= i < head.len() implies #[trigger] head[i] != ';' by {
        if i < front.len() {
            assert(head[i] == front[i]);
        } else if i < front.len() + media_type.len() {
            assert(head[i] == media_type[i - front.len()]);
        } else {
            assert(head[i] == back[i - front.len() - media_type.len()]);
        }
    }
    let place = crate::text::char_index(text, ';');
    crate::text::lemma_char_index(text, ';');
    if place < head.len() {
        assert(text[place] == head[place]);
    } else if place > head.len() {
        assert(text[head.len() as int] == parameters[0]);
    }
    assert(text.take(place) =~= head);
    crate::text::law_trim_cuts_white_space_alone(front, media_type, back);
    let lower = crate::text::lowercase(media_type);
    reveal_strlit("+json");
    reveal_strlit("application/json");
    assert(crate::text::lowercase("application/json"@) =~= "application/json"@);
    assert(crate::text::lowercase("+json"@) =~= "+json"@);
    if media_type.len() >= 5 {
        let tail = media_type.skip(media_type.len() - 5);
        assert(crate::text::lowercase(tail) =~= lower.skip(lower.len() - 5));
        assert(lower.skip(lower.len() - 5) =~= lower.subrange(lower.len() - 5, lower.len() as int));
    }
}

/// What a response comes to. There is a value exactly where the response says that it is
/// JSON and its body parses, and it is the parsed body. There is a parse error exactly
/// where it says so and the body does not parse. The call fails exactly where it requires
/// JSON and there is no value.
pub proof fn law_json_response_is_judged(
    response: &HttpResponseSummary,
    required: bool,
    outcome: JsonOutcome,
)
    requires
        call_ensures(parse_and_validate_json_response, (response, required), outcome),
    ensures
        ({
            let says_json = response.content_type is Some && names_json(
                response.content_type->Some_0@,
            );
            let parsed = crate::json::json_parse(response.body@);
            &&& outcome.0 is Some <==> says_json && parsed is Ok
            &&& outcome.0 matches Some(value) ==> parsed == Ok::<serde_json::Value, Seq<char>>(
                value,
            )
            &&& outcome.1 is Some <==> says_json && parsed is Err
            &&& outcome.1 matches Some(message) ==> parsed == Err::<serde_json::Value, Seq<char>>(
                message@,
            )
            &&& outcome.2 is Some <==> required && outcome.0 is None
            &&& outcome.2 matches Some(error) ==> {
                &&& says_json ==> error.kind@ == "invalid_json_body"@ && error.code@
                    == "mcpg.downstream_http.invalid_json_body"@ && error.details.model()
                    == crate::json::Json::Object(
                    seq![("parseError"@, crate::json::Json::String(parsed->Err_0))],
                )
                &&& !says_json ==> error.kind@ == "invalid_content_type"@ && error.code@
                    == "mcpg.downstream_http.invalid_content_type"@ && error.details.model()
                    == crate::json::Json::Object(
                    seq![
                        (
                            "responseContentType"@,
                            if response.content_type is Some {
                                crate::json::Json::String(response.content_type->Some_0@)
                            } else {
                                crate::json::Json::Null
                            },
                        ),
                    ],
                )
            }
        }),
{
    if outcome.2 is Some {
        let error = outcome.2->Some_0;
        assert(error.model().kind == error.kind@);
        assert(error.model().code == error.code@);
        assert(error.model().details == error.details.model());
    }
}

/// A response whose content is not what the call required is never retried: sending the
/// call again would give the same content.
pub proof fn law_bad_content_is_not_retried(
    response: &HttpResponseSummary,
    required: bool,
    outcome: JsonOutcome,
)
    requires
        call_ensures(parse_and_validate_json_response, (response, required), outcome),
        outcome.2 is Some,
    ensures
        ({
            let error = outcome.2->Some_0;
            &&& !error.retryable
            &&& error.retry_class@ == "do_not_retry"@
            &&& error.caller_retry_decision@ == "do_not_retry"@
            &&& error.retry_safety@ == "do_not_retry"@
            &&& error.backoff_strategy@ == "no_retry"@
            &&& error.idempotency_hint@ == "potentially_non_idempotent"@
            &&& error.retry_after_ms is None
            &&& error.minimum_backoff_ms is None
            &&& error.status_code is None
        }),
{
    let error = outcome.2->Some_0;
    let model = error.model();
    assert(model.retry_class == error.retry_class@);
    assert(model.caller_retry_decision == error.caller_retry_decision@);
    assert(model.retry_safety == error.retry_safety@);
    assert(model.backoff_strategy == error.backoff_strategy@);
    assert(model.idempotency_hint == error.idempotency_hint@);
}

/// A copy of an error is equal to it in every part.
pub proof fn law_copied_error_is_equal(error: &DownstreamHttpError, copy: DownstreamHttpError)
    requires
        call_ensures(DownstreamHttpError::clone, (error,), copy),
    ensures
        copy.kind@ == error.kind@,
        copy.code@ == error.code@,
        copy.message@ == error.message@,
        copy.retryable == error.retryable,
        copy.retry_class@ == error.retry_class@,
        copy.retry_after_ms == error.retry_after_ms,
        copy.idempotency_hint@ == error.idempotency_hint@,
        copy.caller_retry_decision@ == error.caller_retry_decision@,
        copy.retry_safety@ == error.retry_safety@,
        copy.backoff_strategy@ == error.backoff_strategy@,
        copy.minimum_backoff_ms == error.minimum_backoff_ms,
        copy.suggested_action@ == error.suggested_action@,
        copy.status_code == error.status_code,
        copy.details.model() == error.details.model(),
{
    let (a, b) = (copy.model(), error.model());
    assert(a.kind == copy.kind@ && b.kind == error.kind@);
    assert(a.code == copy.code@ && b.code == error.code@);
    assert(a.message == copy.message@ && b.message == error.message@);
    assert(a.retry_class == copy.retry_class@ && b.retry_class == error.retry_class@);
    assert(a.idempotency_hint == copy.idempotency_hint@ && b.idempotency_hint
        == error.idempotency_hint@);
    assert(a.caller_retry_decision == copy.caller_retry_decision@ && b.caller_retry_decision
        == error.caller_retry_decision@);
    assert(a.retry_safety == copy.retry_safety@ && b.retry_safety == error.retry_safety@);
    assert(a.backoff_strategy == copy.backoff_strategy@ && b.backoff_strategy
        == error.backoff_strategy@);
    assert(a.suggested_action == copy.suggested_action@ && b.suggested_action
        == error.suggested_action@);
}

/// What an operator is told about a failed call fits the failure.
pub proof fn law_messages_fit_the_failure(
    error: &str,
    context: RetrySafetyContext,
    transport: DownstreamHttpError,
    response: &HttpResponseSummary,
    outcome: JsonOutcome,
)
    requires
        call_ensures(transport_downstream_error, (error, context), transport),
        call_ensures(parse_and_validate_json_response, (response, true), outcome),
    ensures
        transport.message@
            == "Downstream HTTP execution failed before a valid response was received."@,
        outcome.2 matches Some(failure) && failure.kind@ == "invalid_json_body"@
            ==> outcome.2->Some_0.suggested_action@ == "inspect_downstream_json_payload"@
            && outcome.2->Some_0.message@
            == "Downstream HTTP JSON call returned a JSON content type, but the body was not valid JSON."@,
        outcome.2 matches Some(failure) && failure.kind@ == "invalid_content_type"@
            ==> outcome.2->Some_0.suggested_action@ == "inspect_downstream_response_content_type"@
            && outcome.2->Some_0.message@
            == "Downstream HTTP JSON call required a JSON response content type, but the response was not JSON."@,
{
    assert(transport.model().message == transport.message@);
    reveal_strlit("invalid_json_body");
    reveal_strlit("invalid_content_type");
    assert("invalid_json_body"@.len() == 17);
    assert("invalid_content_type"@.len() == 20);
    if outcome.2 is Some {
        let failure = outcome.2->Some_0;
        assert(failure.model().kind == failure.kind@);
        assert(failure.model().message == failure.message@);
        assert(failure.model().suggested_action == failure.suggested_action@);
    }
}

/// Whether a content type names JSON is decided as [`law_json_media_types`] says.
pub proof fn law_content_type_is_judged(content_type: &str, yes: bool)
    requires
        call_ensures(is_json_content_type, (content_type,), yes),
    ensures
        yes == names_json(content_type@),
{
}

} // verus!

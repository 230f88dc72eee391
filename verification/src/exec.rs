//! Request formatting and response reading.
//!
//! What a call sends and what becomes of its response is decided here. Sending
//! the request and waiting for the bytes of the response is the caller's work.

pub use crate::body::{BodyEvent, BodyReadStep, BodyReader};
pub use crate::client_registry::SharedClient;

use crate::headers::{
    check_header_value, empty_headers, get_header, header_text, insert_header, put_header,
};
use crate::json::JsonValue;
use crate::percent::percent_encode;
use crate::sort::{sorted, Sortable};
use crate::text::{
    chars_of, find_char, is_text, join_texts, lowercased, parse_unsigned, part_before,
    same_chars, starts_with, text_of, trimmed,
};
use crate::types::{
    HeaderTable, HttpBackendMethod, HttpCallMode, HttpRequestProfile, HttpResponseSummary,
};
use crate::url::{read_url, with_query_string};
use vstd::prelude::*;
use vstd::slice::slice_subrange;

verus! {

/// Whether an operator may not set the header `name`. Such a header is computed
/// for each request (`host`, `content-length`, `connection`, and for JSON calls
/// `accept` and `content-type`), or tells of the proxies before this one and must
/// not leak to the upstream.
pub open spec fn is_protected(name: Seq<char>, is_json_call: bool) -> bool {
    let lower = crate::text::lowercase(crate::text::trim(name));
    ||| lower == "host"@
    ||| lower == "connection"@
    ||| lower == "content-length"@
    ||| is_json_call && (lower == "accept"@ || lower == "content-type"@)
    ||| "x-forwarded-"@.is_prefix_of(lower)
    ||| lower == "forwarded"@
    ||| lower == "via"@
    ||| lower == "x-real-ip"@
    ||| lower == "x-request-id"@
}

/// Decides [`is_protected`].
pub fn is_protected_request_header(name: &str, is_json_call: bool) -> (yes: bool)
    ensures
        yes == is_protected(name@, is_json_call),
{
    let chars = chars_of(name);
    let lowered = lowercased(trimmed(chars.as_slice()));
    let lower = lowered.as_slice();
    is_text(lower, "host") || is_text(lower, "connection") || is_text(lower, "content-length") || (
    is_json_call && (is_text(lower, "accept") || is_text(lower, "content-type"))) || starts_with(
        lower,
        "x-forwarded-",
    ) || is_text(lower, "forwarded") || is_text(lower, "via") || is_text(lower, "x-real-ip")
        || is_text(lower, "x-request-id")
}

/// The text of an argument in a query string: a string as it is, any other value
/// as JSON.
pub open spec fn query_value(value: crate::json::Json) -> Seq<char> {
    match value {
        crate::json::Json::String(text) => text,
        _ => crate::json::json_text(value),
    }
}

/// The keys and values that one argument contributes: an array repeats the key
/// for each of its items.
pub open spec fn argument_pairs(argument: (Seq<char>, crate::json::Json)) -> Seq<
    (Seq<char>, Seq<char>),
> {
    match argument.1 {
        crate::json::Json::Array(items) => Seq::new(
            items.len(),
            |i: int| (argument.0, query_value(items[i])),
        ),
        value => seq![(argument.0, query_value(value))],
    }
}

/// The keys and values that all arguments contribute, in order.
pub open spec fn arguments_pairs(arguments: Seq<(Seq<char>, crate::json::Json)>) -> Seq<
    (Seq<char>, Seq<char>),
>
    decreases arguments.len(),
{
    if arguments.len() == 0 {
        Seq::empty()
    } else {
        arguments_pairs(arguments.drop_last()) + argument_pairs(arguments.last())
    }
}

/// A key and its value, each percent-encoded.
pub open spec fn pair_text(pair: (Seq<char>, Seq<char>)) -> Seq<char> {
    crate::percent::percent_encoded(pair.0) + "="@ + crate::percent::percent_encoded(pair.1)
}

/// The texts of all pairs.
pub open spec fn pair_texts(pairs: Seq<(Seq<char>, Seq<char>)>) -> Seq<Seq<char>> {
    pairs.map_values(|pair: (Seq<char>, Seq<char>)| pair_text(pair))
}

/// The query string of keys and values.
pub open spec fn query_text(pairs: Seq<(Seq<char>, Seq<char>)>) -> Seq<char> {
    crate::text::joined(pair_texts(pairs), "&"@)
}

/// The query string of an object's entries: they are sorted by key first.
pub open spec fn arguments_query(arguments: Seq<(Seq<char>, crate::json::Json)>) -> Seq<char> {
    query_text(arguments_pairs(crate::sort::stable_sort(arguments, crate::sort::by_first())))
}

/// An argument, by reference, ordered by its key.
#[derive(Clone, Copy)]
struct ArgumentRef<'a> {
    entry: &'a (String, JsonValue),
}

impl<'a> Sortable for ArgumentRef<'a> {
    type Model = (Seq<char>, crate::json::Json);

    closed spec fn model(&self) -> (Seq<char>, crate::json::Json) {
        (self.entry.0@, self.entry.1.model())
    }

    open spec fn order() -> spec_fn(
        (Seq<char>, crate::json::Json),
        (Seq<char>, crate::json::Json),
    ) -> bool {
        crate::sort::by_first()
    }

    fn may_precede(&self, other: &Self) -> (yes: bool) {
        crate::sort::at_or_before(self.entry.0.as_str(), other.entry.0.as_str())
    }
}

/// Computes [`query_value`].
pub fn query_value_string(value: &JsonValue) -> (text: String)
    ensures
        text@ == query_value(value.model()),
{
    match value {
        JsonValue::String(text) => text.clone(),
        _ => value.text(),
    }
}

fn push_pair(parts: &mut Vec<String>, key: &str, value: &JsonValue)
    ensures
        crate::text::texts(final(parts)@) == crate::text::texts(old(parts)@).push(
            pair_text((key@, query_value(value.model()))),
        ),
{
    let text = query_value_string(value);
    let mut part = percent_encode(key);
    let encoded = percent_encode(text.as_str());
    part.append("=");
    part.append(encoded.as_str());
    let ghost given = crate::text::texts(parts@);
    parts.push(part);
    assert(crate::text::texts(parts@) =~= given.push(part@));
}

fn push_argument(parts: &mut Vec<String>, key: &str, value: &JsonValue)
    ensures
        crate::text::texts(final(parts)@) == crate::text::texts(old(parts)@) + pair_texts(
            argument_pairs((key@, value.model())),
        ),
{
    let ghost given = crate::text::texts(parts@);
    let ghost pairs = argument_pairs((key@, value.model()));
    match value {
        JsonValue::Array(items) => {
            let mut i: usize = 0;
            assert(given + pair_texts(pairs.take(0)) =~= given);
            assert(pairs.len() == items@.len());
            while i < items.len()
                invariant
                    i <= items@.len(),
                    pairs == argument_pairs((key@, value.model())),
                    value == JsonValue::Array(*items),
                    pairs.len() == items@.len(),
                    crate::text::texts(parts@) == given + pair_texts(pairs.take(i as int)),
                decreases items@.len() - i,
            {
                push_pair(parts, key, &items[i]);
                assert(pairs[i as int] == (key@, query_value(items@[i as int].model())));
                assert(pair_texts(pairs.take(i + 1)) =~= pair_texts(pairs.take(i as int)).push(
                    pair_text(pairs[i as int]),
                ));
                assert(given + pair_texts(pairs.take(i + 1)) =~= (given + pair_texts(
                    pairs.take(i as int),
                )).push(pair_text(pairs[i as int])));
                i = i + 1;
            }
            assert(pairs.take(i as int) =~= pairs);
        },
        _ => {
            push_pair(parts, key, value);
            assert(pairs =~= seq![(key@, query_value(value.model()))]);
            assert(pair_texts(pairs) =~= seq![pair_text(pairs[0])]);
            assert(given + pair_texts(pairs) =~= given.push(pair_text(pairs[0])));
        },
    }
}

proof fn lemma_pair_texts_concat(a: Seq<(Seq<char>, Seq<char>)>, b: Seq<(Seq<char>, Seq<char>)>)
    ensures
        pair_texts(a + b) == pair_texts(a) + pair_texts(b),
{
    assert(pair_texts(a + b) =~= pair_texts(a) + pair_texts(b));
}

/// Builds the query string of a GET-style call from its arguments, which must be
/// a JSON object. Keys are sorted, an array repeats its key, and keys and values
/// are percent-encoded.
pub fn build_query_string(arguments: &JsonValue) -> (query: Result<String, String>)
    ensures
        match arguments.model() {
            crate::json::Json::Object(entries) => query matches Ok(text) && text@
                == arguments_query(entries),
            _ => query matches Err(message) && message@
                == "HTTP query call arguments must be a JSON object"@,
        },
{
    match arguments {
        JsonValue::Object(entries) => {
            let ghost given = crate::json::entry_models(entries@);
            let mut refs: Vec<ArgumentRef> = Vec::new();
            let mut i: usize = 0;
            while i < entries.len()
                invariant
                    i <= entries@.len(),
                    given == crate::json::entry_models(entries@),
                    crate::sort::models(refs@) == given.take(i as int),
                decreases entries@.len() - i,
            {
                let argument = ArgumentRef { entry: &entries[i] };
                let ghost so_far = crate::sort::models(refs@);
                refs.push(argument);
                assert(crate::sort::models(refs@) =~= so_far.push(given[i as int]));
                assert(given.take(i + 1) =~= so_far.push(given[i as int]));
                i = i + 1;
            }
            assert(given.take(i as int) =~= given);
            let ordered = sorted(&refs);
            let ghost all = crate::sort::models(ordered@);
            let mut parts: Vec<String> = Vec::new();
            let mut n: usize = 0;
            assert(all.take(0) =~= Seq::empty());
            assert(crate::text::texts(parts@) =~= pair_texts(arguments_pairs(all.take(0))));
            while n < ordered.len()
                invariant
                    n <= ordered@.len(),
                    all == crate::sort::models(ordered@),
                    crate::text::texts(parts@) == pair_texts(arguments_pairs(all.take(n as int))),
                decreases ordered@.len() - n,
            {
                let entry = ordered[n].entry;
                push_argument(&mut parts, entry.0.as_str(), &entry.1);
                proof {
                    let model = (entry.0@, entry.1.model());
                    assert(all.take(n + 1).drop_last() =~= all.take(n as int));
                    assert(all.take(n + 1).last() == model);
                    lemma_pair_texts_concat(
                        arguments_pairs(all.take(n as int)),
                        argument_pairs(model),
                    );
                }
                n = n + 1;
            }
            assert(all.take(n as int) =~= all);
            Ok(join_texts(&parts, "&"))
        },
        _ => Err("HTTP query call arguments must be a JSON object".to_owned()),
    }
}

/// The query string does not depend on the order of an object's entries.
pub proof fn law_query_ignores_order(
    a: Seq<(Seq<char>, crate::json::Json)>,
    b: Seq<(Seq<char>, crate::json::Json)>,
)
    requires
        crate::sort::distinct_firsts(a),
        crate::sort::distinct_firsts(b),
        forall|entry: (Seq<char>, crate::json::Json)| #[trigger]
            a.contains(entry) <==> b.contains(entry),
    ensures
        arguments_query(a) == arguments_query(b),
{
    crate::sort::law_distinct_firsts_sort_alike(a, b);
}

/// What a server reads in a part of a query: the bytes before the first `=` and
/// those behind it.
pub open spec fn read_pair(part: Seq<char>) -> (Seq<u8>, Seq<u8>) {
    let place = crate::text::char_index(part, '=');
    (
        crate::percent::decoded_bytes(part.take(place)),
        crate::percent::decoded_bytes(part.skip(place + 1)),
    )
}

/// What a server reads in a query: the pairs between the `&`s.
pub open spec fn read_query(query: Seq<char>) -> Seq<(Seq<u8>, Seq<u8>)> {
    if query.len() == 0 {
        Seq::empty()
    } else {
        crate::text::split(query, '&').map_values(|part: Seq<char>| read_pair(part))
    }
}

/// A server reads in a query string the keys and values that it was built from,
/// each once and in order.
pub proof fn law_query_reads_back(pairs: Seq<(Seq<char>, Seq<char>)>)
    ensures
        read_query(query_text(pairs)) == pairs.map_values(
            |pair: (Seq<char>, Seq<char>)|
                (vstd::utf8::encode_utf8(pair.0), vstd::utf8::encode_utf8(pair.1)),
        ),
{
    let parts = pair_texts(pairs);
    let text = query_text(pairs);
    reveal_strlit("&");
    reveal_strlit("=");
    assert("&"@ =~= seq!['&']);
    assert("="@ =~= seq!['=']);
    if pairs.len() == 0 {
        assert(read_query(text) =~= Seq::empty());
    } else {
        assert forall|i: int| 0 <= i < parts.len() implies !(#[trigger] parts[i]).contains('&')
            && parts[i].len() > 0 && read_pair(parts[i]) == (
            vstd::utf8::encode_utf8(pairs[i].0),
            vstd::utf8::encode_utf8(pairs[i].1),
        ) by {
            lemma_pair_reads_back(pairs[i]);
        }
        crate::text::law_split_undoes_join(parts, '&');
        assert(text.len() >= parts[0].len());
        assert(read_query(text).len() == pairs.len());
        assert forall|i: int| 0 <= i < pairs.len() implies #[trigger] read_query(text)[i] == (
            vstd::utf8::encode_utf8(pairs[i].0),
            vstd::utf8::encode_utf8(pairs[i].1),
        ) by {
            assert(read_query(text)[i] == read_pair(parts[i]));
        }
    }
    assert(read_query(text) =~= pairs.map_values(
        |pair: (Seq<char>, Seq<char>)|
            (vstd::utf8::encode_utf8(pair.0), vstd::utf8::encode_utf8(pair.1)),
    ));
}

proof fn lemma_pair_reads_back(pair: (Seq<char>, Seq<char>))
    ensures
        !pair_text(pair).contains('&'),
        pair_text(pair).len() > 0,
        read_pair(pair_text(pair)) == (
            vstd::utf8::encode_utf8(pair.0),
            vstd::utf8::encode_utf8(pair.1),
        ),
{
    let key_bytes = vstd::utf8::encode_utf8(pair.0);
    let value_bytes = vstd::utf8::encode_utf8(pair.1);
    let key = crate::percent::percent_encoded(pair.0);
    let value = crate::percent::percent_encoded(pair.1);
    let text = pair_text(pair);
    reveal_strlit("=");
    assert("="@ =~= seq!['=']);
    assert forall|i: int| 0 <= i < key.len() implies crate::percent::is_encoded_char(
        #[trigger] key[i],
    ) by {
        crate::percent::law_encoded_text_is_plain(key_bytes, i);
    }
    assert forall|i: int| 0 <= i < value.len() implies crate::percent::is_encoded_char(
        #[trigger] value[i],
    ) by {
        crate::percent::law_encoded_text_is_plain(value_bytes, i);
    }
    assert forall|i: int| 0 <= i < text.len() implies #[trigger] text[i] != '&' by {
        if i < key.len() {
            assert(text[i] == key[i]);
        } else if i > key.len() {
            assert(text[i] == value[i - key.len() - 1]);
        }
    }
    crate::text::lemma_first_separator(key, '=', value);
    crate::percent::law_decoding_undoes_encoding(key_bytes);
    crate::percent::law_decoding_undoes_encoding(value_bytes);
}

/// The default headers of a client: the operator's headers without the protected
/// ones, or what is wrong with the first bad one.
pub open spec fn default_contents(
    entries: Seq<(Seq<char>, Seq<char>)>,
    is_json_call: bool,
) -> Result<crate::headers::HeaderContents, Seq<char>>
    decreases entries.len(),
{
    if entries.len() == 0 {
        Ok(crate::headers::HeaderContents::empty())
    } else {
        match default_contents(entries.drop_last(), is_json_call) {
            Err(message) => Err(message),
            Ok(contents) => if is_protected(entries.last().0, is_json_call) {
                Ok(contents)
            } else {
                crate::headers::header_set(
                    contents,
                    entries.last().0,
                    entries.last().1,
                    "invalid header name"@,
                    "invalid header value for"@,
                )
            },
        }
    }
}

proof fn lemma_default_contents_size(entries: Seq<(Seq<char>, Seq<char>)>, is_json_call: bool)
    ensures
        default_contents(entries, is_json_call) matches Ok(contents) ==> contents.dom().finite()
            && contents.len() <= entries.len(),
    decreases entries.len(),
{
    if entries.len() > 0 {
        lemma_default_contents_size(entries.drop_last(), is_json_call);
    }
}

proof fn lemma_default_contents_error(
    entries: Seq<(Seq<char>, Seq<char>)>,
    is_json_call: bool,
    n: int,
)
    requires
        0 <= n <= entries.len(),
        default_contents(entries.take(n), is_json_call) is Err,
    ensures
        default_contents(entries, is_json_call) == default_contents(entries.take(n), is_json_call),
    decreases entries.len() - n,
{
    if n < entries.len() {
        assert(entries.take(n + 1).drop_last() =~= entries.take(n));
        lemma_default_contents_error(entries, is_json_call, n + 1);
    } else {
        assert(entries.take(n) =~= entries);
    }
}

/// Makes the default headers of a client from the headers that an operator
/// configured. Protected names are left out. A table of more names than a header
/// map is sure to take is not accepted.
pub fn build_default_headers(profile_headers: &HeaderTable, is_json_call: bool) -> (result: Result<
    reqwest::header::HeaderMap,
    String,
>)
    requires
        profile_headers@.len() <= crate::headers::MAX_NAMES_BEFORE_INSERT + 1,
    ensures
        match default_contents(profile_headers@, is_json_call) {
            Ok(contents) => result matches Ok(map) && crate::headers::header_contents(map)
                == contents,
            Err(message) => result matches Err(text) && text@ == message,
        },
{
    let entries = profile_headers.entries();
    let ghost all = profile_headers@;
    let mut map = empty_headers();
    let mut i: usize = 0;
    assert(all.take(0) =~= Seq::empty());
    while i < entries.len()
        invariant
            i <= entries@.len(),
            all == profile_headers@,
            all == crate::types::pairs_model(entries@),
            all.len() <= crate::headers::MAX_NAMES_BEFORE_INSERT + 1,
            default_contents(all.take(i as int), is_json_call) == Ok::<
                crate::headers::HeaderContents,
                Seq<char>,
            >(crate::headers::header_contents(map)),
        decreases entries@.len() - i,
    {
        let entry = &entries[i];
        proof {
            assert(all.take(i + 1).drop_last() =~= all.take(i as int));
            assert(all.take(i + 1).last() == (entry.0@, entry.1@));
            lemma_default_contents_size(all.take(i as int), is_json_call);
        }
        if !is_protected_request_header(entry.0.as_str(), is_json_call) {
            match put_header(
                &mut map,
                entry.0.as_str(),
                entry.1.as_str(),
                "invalid header name",
                "invalid header value for",
            ) {
                Ok(_) => {},
                Err(message) => {
                    proof {
                        lemma_default_contents_error(all, is_json_call, i + 1);
                    }
                    return Err(message);
                },
            }
        }
        i = i + 1;
    }
    assert(all.take(i as int) =~= all);
    Ok(map)
}

/// No default header has a protected name.
pub proof fn law_default_headers_are_unprotected(
    entries: Seq<(Seq<char>, Seq<char>)>,
    is_json_call: bool,
    key: Seq<char>,
)
    requires
        default_contents(entries, is_json_call) is Ok,
        default_contents(entries, is_json_call)->Ok_0.contains_key(key),
    ensures
        !is_protected(key, is_json_call),
    decreases entries.len(),
{
    let shorter = entries.drop_last();
    let name = entries.last().0;
    if !is_protected(name, is_json_call) && key == crate::text::lowercase(name) {
        crate::headers::lemma_header_name(name);
        crate::text::lemma_lowercase_twice(name);
    } else {
        law_default_headers_are_unprotected(shorter, is_json_call, key);
    }
}

/// Every header of the operator that is not protected arrives with its value,
/// unless a later one has the same name in another case.
pub proof fn law_default_headers_are_complete(
    entries: Seq<(Seq<char>, Seq<char>)>,
    is_json_call: bool,
    i: int,
)
    requires
        default_contents(entries, is_json_call) is Ok,
        0 <= i < entries.len(),
        !is_protected(entries[i].0, is_json_call),
        forall|j: int|
            i < j < entries.len() ==> !crate::text::eq_ignore_case(
                (#[trigger] entries[j]).0,
                entries[i].0,
            ),
    ensures
        ({
            let contents = default_contents(entries, is_json_call)->Ok_0;
            let key = crate::text::lowercase(entries[i].0);
            contents.contains_key(key) && contents[key] == seq![
                vstd::utf8::encode_utf8(entries[i].1),
            ]
        }),
    decreases entries.len(),
{
    let shorter = entries.drop_last();
    if i < shorter.len() {
        assert(shorter[i] == entries[i]);
        assert(!crate::text::eq_ignore_case(entries[entries.len() - 1].0, entries[i].0));
        assert forall|j: int| i < j < shorter.len() implies !crate::text::eq_ignore_case(
            (#[trigger] shorter[j]).0,
            shorter[i].0,
        ) by {
            assert(shorter[j] == entries[j]);
        }
        law_default_headers_are_complete(shorter, is_json_call, i);
    }
}

/// The default headers fail exactly where a header that is not protected has a
/// bad name or a bad value. What a protected header holds does not matter.
pub proof fn law_default_headers_fail_on_bad_headers(
    entries: Seq<(Seq<char>, Seq<char>)>,
    is_json_call: bool,
)
    ensures
        default_contents(entries, is_json_call) is Err <==> exists|i: int|
            0 <= i < entries.len() && !is_protected(
                (#[trigger] entries[i]).0,
                is_json_call,
            ) && !(crate::headers::is_header_name(entries[i].0)
                && crate::headers::is_header_value(entries[i].1)),
    decreases entries.len(),
{
    if entries.len() > 0 {
        let shorter = entries.drop_last();
        law_default_headers_fail_on_bad_headers(shorter, is_json_call);
        if default_contents(shorter, is_json_call) is Err {
            let i = choose|i: int|
                0 <= i < shorter.len() && !is_protected((#[trigger] shorter[i]).0, is_json_call)
                    && !(crate::headers::is_header_name(shorter[i].0)
                    && crate::headers::is_header_value(shorter[i].1));
            assert(entries[i] == shorter[i]);
        } else if default_contents(entries, is_json_call) is Err {
            assert(entries[entries.len() - 1] == entries.last());
        } else {
            assert forall|i: int| 0 <= i < entries.len() implies is_protected(
                (#[trigger] entries[i]).0,
                is_json_call,
            ) || (crate::headers::is_header_name(entries[i].0) && crate::headers::is_header_value(
                entries[i].1,
            )) by {
                if i < shorter.len() {
                    assert(entries[i] == shorter[i]);
                }
            }
        }
    }
}

/// The names of the trace headers that are passed on.
pub open spec fn is_trace_header(name: Seq<char>) -> bool {
    let lower = crate::text::lowercase(crate::text::trim(name));
    lower == "traceparent"@ || lower == "tracestate"@
}

/// The trace headers among the headers of a request, or what is wrong with the
/// first bad one. Of one name the last value counts.
pub open spec fn trace_contents(entries: Seq<(Seq<char>, Seq<char>)>) -> Result<
    crate::headers::HeaderContents,
    Seq<char>,
>
    decreases entries.len(),
{
    if entries.len() == 0 {
        Ok(crate::headers::HeaderContents::empty())
    } else {
        match trace_contents(entries.drop_last()) {
            Err(message) => Err(message),
            Ok(contents) => if is_trace_header(entries.last().0) {
                crate::headers::header_set(
                    contents,
                    entries.last().0,
                    entries.last().1,
                    "invalid trace header"@,
                    "invalid trace header value for"@,
                )
            } else {
                Ok(contents)
            },
        }
    }
}

/// The headers that a call adds to those of its client: the trace headers, and
/// the idempotency key where there is one and the operator has not set one.
pub open spec fn per_call_contents(
    entries: Seq<(Seq<char>, Seq<char>)>,
    idempotency_key: Option<Seq<char>>,
    operator_has_idempotency_key: bool,
) -> Result<crate::headers::HeaderContents, Seq<char>> {
    match trace_contents(entries) {
        Err(message) => Err(message),
        Ok(contents) => match idempotency_key {
            Some(key) if !operator_has_idempotency_key => if crate::headers::is_header_value(key) {
                Ok(contents.insert("idempotency-key"@, seq![vstd::utf8::encode_utf8(key)]))
            } else {
                Err("invalid Idempotency-Key value: "@ + "failed to parse header value"@)
            },
            _ => Ok(contents),
        },
    }
}

proof fn lemma_trace_contents_size(entries: Seq<(Seq<char>, Seq<char>)>)
    ensures
        trace_contents(entries) matches Ok(contents) ==> contents.dom().subset_of(
            set!["traceparent"@, "tracestate"@],
        ) && contents.dom().finite() && contents.len() <= 2,
    decreases entries.len(),
{
    let names = set!["traceparent"@, "tracestate"@];
    if entries.len() > 0 {
        lemma_trace_contents_size(entries.drop_last());
        let name = entries.last().0;
        if crate::headers::is_header_name(name) {
            crate::headers::lemma_header_name(name);
        }
    }
    if trace_contents(entries) is Ok {
        vstd::set_lib::lemma_len_subset(trace_contents(entries)->Ok_0.dom(), names);
        assert(Set::<Seq<char>>::empty().insert("traceparent"@).len() <= 1);
        assert(names.len() <= 2);
    }
}

proof fn lemma_trace_contents_error(entries: Seq<(Seq<char>, Seq<char>)>, n: int)
    requires
        0 <= n <= entries.len(),
        trace_contents(entries.take(n)) is Err,
    ensures
        trace_contents(entries) == trace_contents(entries.take(n)),
    decreases entries.len() - n,
{
    if n < entries.len() {
        assert(entries.take(n + 1).drop_last() =~= entries.take(n));
        lemma_trace_contents_error(entries, n + 1);
    } else {
        assert(entries.take(n) =~= entries);
    }
}

fn trace_header(name: &str) -> (yes: bool)
    ensures
        yes == is_trace_header(name@),
{
    let chars = chars_of(name);
    let lower = lowercased(trimmed(chars.as_slice()));
    is_text(lower.as_slice(), "traceparent") || is_text(lower.as_slice(), "tracestate")
}

fn build_trace_headers(request_headers: &[(String, String)]) -> (result: Result<
    reqwest::header::HeaderMap,
    String,
>)
    ensures
        match trace_contents(crate::types::pairs_model(request_headers@)) {
            Ok(contents) => result matches Ok(map) && crate::headers::header_contents(map)
                == contents,
            Err(message) => result matches Err(text) && text@ == message,
        },
{
    let ghost all = crate::types::pairs_model(request_headers@);
    let mut map = empty_headers();
    let mut i: usize = 0;
    assert(all.take(0) =~= Seq::empty());
    while i < request_headers.len()
        invariant
            i <= request_headers@.len(),
            all == crate::types::pairs_model(request_headers@),
            trace_contents(all.take(i as int)) == Ok::<crate::headers::HeaderContents, Seq<char>>(
                crate::headers::header_contents(map),
            ),
        decreases request_headers@.len() - i,
    {
        let entry = &request_headers[i];
        proof {
            assert(all.take(i + 1).drop_last() =~= all.take(i as int));
            assert(all.take(i + 1).last() == (entry.0@, entry.1@));
            lemma_trace_contents_size(all.take(i as int));
        }
        if trace_header(entry.0.as_str()) {
            match put_header(
                &mut map,
                entry.0.as_str(),
                entry.1.as_str(),
                "invalid trace header",
                "invalid trace header value for",
            ) {
                Ok(_) => {},
                Err(message) => {
                    proof {
                        lemma_trace_contents_error(all, i + 1);
                    }
                    return Err(message);
                },
            }
        }
        i = i + 1;
    }
    assert(all.take(i as int) =~= all);
    Ok(map)
}

proof fn lemma_idempotency_key_name()
    ensures
        crate::headers::is_header_name("Idempotency-Key"@),
        crate::text::lowercase("Idempotency-Key"@) == "idempotency-key"@,
{
    reveal_strlit("Idempotency-Key");
    reveal_strlit("idempotency-key");
    assert(crate::text::lowercase("Idempotency-Key"@) =~= "idempotency-key"@);
}

/// Makes the headers that a call adds to those of its client. Of the headers of
/// the request the trace headers alone are passed on. An idempotency key is added
/// unless the operator has configured one, which then wins.
pub fn build_per_call_headers(
    request_headers: &[(String, String)],
    idempotency_key: Option<&str>,
    operator_has_idempotency_key: bool,
) -> (result: Result<reqwest::header::HeaderMap, String>)
    ensures
        match per_call_contents(
            crate::types::pairs_model(request_headers@),
            crate::text::optional_str(idempotency_key),
            operator_has_idempotency_key,
        ) {
            Ok(contents) => result matches Ok(map) && crate::headers::header_contents(map)
                == contents,
            Err(message) => result matches Err(text) && text@ == message,
        },
{
    let mut map = match build_trace_headers(request_headers) {
        Ok(map) => map,
        Err(message) => {
            return Err(message);
        },
    };
    if let Some(key) = idempotency_key {
        if !operator_has_idempotency_key {
            match check_header_value(key) {
                Ok(_) => {
                    proof {
                        lemma_trace_contents_size(crate::types::pairs_model(request_headers@));
                        lemma_idempotency_key_name();
                    }
                    insert_header(&mut map, "Idempotency-Key", key);
                },
                Err(error) => {
                    let mut message = "invalid Idempotency-Key value: ".to_owned();
                    message.append(error.as_str());
                    return Err(message);
                },
            }
        }
    }
    Ok(map)
}

/// A call adds no header but the trace headers and the idempotency key.
pub proof fn law_per_call_headers_are_few(
    entries: Seq<(Seq<char>, Seq<char>)>,
    idempotency_key: Option<Seq<char>>,
    operator_has_idempotency_key: bool,
    name: Seq<char>,
)
    requires
        per_call_contents(entries, idempotency_key, operator_has_idempotency_key) is Ok,
        per_call_contents(
            entries,
            idempotency_key,
            operator_has_idempotency_key,
        )->Ok_0.contains_key(name),
    ensures
        name == "traceparent"@ || name == "tracestate"@ || name == "idempotency-key"@,
{
    lemma_trace_contents_size(entries);
}

/// A call carries an idempotency key exactly where it was given one and the
/// operator has not configured one, and then it is the key that it was given.
pub proof fn law_idempotency_key_yields_to_the_operator(
    entries: Seq<(Seq<char>, Seq<char>)>,
    idempotency_key: Option<Seq<char>>,
    operator_has_idempotency_key: bool,
)
    requires
        per_call_contents(entries, idempotency_key, operator_has_idempotency_key) is Ok,
    ensures
        ({
            let contents = per_call_contents(
                entries,
                idempotency_key,
                operator_has_idempotency_key,
            )->Ok_0;
            &&& contents.contains_key("idempotency-key"@) <==> idempotency_key is Some
                && !operator_has_idempotency_key
            &&& contents.contains_key("idempotency-key"@) ==> contents["idempotency-key"@] == seq![
                vstd::utf8::encode_utf8(idempotency_key->Some_0),
            ]
        }),
{
    lemma_trace_contents_size(entries);
    reveal_strlit("idempotency-key");
    reveal_strlit("traceparent");
    reveal_strlit("tracestate");
    assert("idempotency-key"@.len() == 15);
    assert("traceparent"@.len() == 11);
    assert("tracestate"@.len() == 10);
}

/// The trace header that a request carries is passed on with its value, unless
/// the request carries it again later.
pub proof fn law_trace_headers_are_passed_on(
    entries: Seq<(Seq<char>, Seq<char>)>,
    i: int,
)
    requires
        trace_contents(entries) is Ok,
        0 <= i < entries.len(),
        is_trace_header(entries[i].0),
        forall|j: int|
            i < j < entries.len() ==> !crate::text::eq_ignore_case(
                (#[trigger] entries[j]).0,
                entries[i].0,
            ),
    ensures
        ({
            let contents = trace_contents(entries)->Ok_0;
            let key = crate::text::lowercase(entries[i].0);
            contents.contains_key(key) && contents[key] == seq![
                vstd::utf8::encode_utf8(entries[i].1),
            ]
        }),
    decreases entries.len(),
{
    let shorter = entries.drop_last();
    if i < shorter.len() {
        assert(shorter[i] == entries[i]);
        assert(!crate::text::eq_ignore_case(entries[entries.len() - 1].0, entries[i].0));
        assert forall|j: int| i < j < shorter.len() implies !crate::text::eq_ignore_case(
            (#[trigger] shorter[j]).0,
            shorter[i].0,
        ) by {
            assert(shorter[j] == entries[j]);
        }
        law_trace_headers_are_passed_on(shorter, i);
    }
}

/// The URL of a request: the resolved URL with the query of the call added, or
/// what is wrong with it.
pub open spec fn requested_url(resolved_url: Seq<char>, request_query: Option<Seq<char>>) -> Result<
    Seq<char>,
    Seq<char>,
> {
    match crate::url::parsed_url(resolved_url) {
        Err(message) => Err("invalid URL: "@ + message),
        Ok(url) => match request_query {
            Some(query) => Ok(crate::url::url_plus_query(resolved_url, url, query)),
            None => Ok(resolved_url),
        },
    }
}

/// The model of a result whose value and error are strings.
pub open spec fn text_outcome(result: Result<String, String>) -> Result<Seq<char>, Seq<char>> {
    match result {
        Ok(text) => Ok(text@),
        Err(message) => Err(message@),
    }
}

/// Computes [`requested_url`].
pub fn request_url(resolved_url: &str, request_query: Option<&str>) -> (url: Result<String, String>)
    requires
        resolved_url@.len() <= crate::text::MAX_PARSED_CHARS,
        request_query matches Some(query) ==> query@.len() == 0 || crate::url::query_fits(
            resolved_url@.len(),
            query@.len(),
        ),
    ensures
        text_outcome(url) == requested_url(
            resolved_url@,
            crate::text::optional_str(request_query),
        ),
{
    match read_url(resolved_url) {
        Err(error) => {
            let mut message = "invalid URL: ".to_owned();
            message.append(error.as_str());
            Err(message)
        },
        Ok(parts) => match request_query {
            Some(query) => Ok(with_query_string(resolved_url, &parts, query)),
            None => Ok(resolved_url.to_owned()),
        },
    }
}

/// What a call sends.
pub struct HttpCallPlan {
    /// The method.
    pub method: HttpBackendMethod,
    /// The URL, with the query of the call.
    pub url: String,
    /// The headers that are added to those of the client.
    pub headers: reqwest::header::HeaderMap,
    /// The value of the `accept` header.
    pub accept: &'static str,
    /// Whether the arguments are sent as a JSON body.
    pub json_body: bool,
}

/// What is planned for a request URL (or what is wrong with it) and the headers
/// of the call (or what is wrong with them): the URL is looked at first.
pub open spec fn planned(
    plan: Result<HttpCallPlan, String>,
    method: HttpBackendMethod,
    require_json_response: bool,
    call_mode: HttpCallMode,
    url: Result<Seq<char>, Seq<char>>,
    contents: Result<crate::headers::HeaderContents, Seq<char>>,
) -> bool {
    match url {
        Err(message) => plan matches Err(text) && text@ == message,
        Ok(url) => match contents {
            Err(message) => plan matches Err(text) && text@ == message,
            Ok(contents) => {
                &&& plan matches Ok(plan)
                &&& plan.method == method
                &&& plan.url@ == url
                &&& crate::headers::header_contents(plan.headers) == contents
                &&& plan.accept@ == (if require_json_response {
                    "application/json"@
                } else {
                    "*/*"@
                })
                &&& plan.json_body == (call_mode is JsonBody)
            },
        },
    }
}

/// Plans a call whose URL is known, or known to be bad.
pub fn plan_request(
    profile: &HttpRequestProfile,
    call_mode: HttpCallMode,
    url: Result<String, String>,
    request_headers: &[(String, String)],
    idempotency_key: Option<&str>,
    operator_has_idempotency_key: bool,
) -> (plan: Result<HttpCallPlan, String>)
    ensures
        planned(
            plan,
            profile.method,
            profile.require_json_response,
            call_mode,
            text_outcome(url),
            per_call_contents(
                crate::types::pairs_model(request_headers@),
                crate::text::optional_str(idempotency_key),
                operator_has_idempotency_key,
            ),
        ),
{
    match url {
        Err(message) => Err(message),
        Ok(url) => match build_per_call_headers(
            request_headers,
            idempotency_key,
            operator_has_idempotency_key,
        ) {
            Err(message) => Err(message),
            Ok(headers) => {
                let accept = if profile.require_json_response {
                    "application/json"
                } else {
                    "*/*"
                };
                let json_body = match call_mode {
                    HttpCallMode::JsonBody => true,
                    HttpCallMode::QueryString => false,
                };
                Ok(HttpCallPlan { method: profile.method, url, headers, accept, json_body })
            },
        },
    }
}

/// Plans a call: which method, URL, headers and body its request has.
pub fn plan_http_call(
    profile: &HttpRequestProfile,
    call_mode: HttpCallMode,
    request_query: Option<&str>,
    request_headers: &[(String, String)],
    idempotency_key: Option<&str>,
    operator_has_idempotency_key: bool,
    resolved_url: &str,
) -> (plan: Result<HttpCallPlan, String>)
    requires
        resolved_url@.len() <= crate::text::MAX_PARSED_CHARS,
        request_query matches Some(query) ==> query@.len() == 0 || crate::url::query_fits(
            resolved_url@.len(),
            query@.len(),
        ),
    ensures
        planned(
            plan,
            profile.method,
            profile.require_json_response,
            call_mode,
            requested_url(resolved_url@, crate::text::optional_str(request_query)),
            per_call_contents(
                crate::types::pairs_model(request_headers@),
                crate::text::optional_str(idempotency_key),
                operator_has_idempotency_key,
            ),
        ),
{
    let url = request_url(resolved_url, request_query);
    plan_request(
        profile,
        call_mode,
        url,
        request_headers,
        idempotency_key,
        operator_has_idempotency_key,
    )
}

/// Whether two plans send the same request, or fail with the same message.
pub open spec fn same_request(
    a: Result<HttpCallPlan, String>,
    b: Result<HttpCallPlan, String>,
) -> bool {
    match (a, b) {
        (Ok(a), Ok(b)) => {
            &&& a.method == b.method
            &&& a.url@ == b.url@
            &&& crate::headers::header_contents(a.headers) == crate::headers::header_contents(
                b.headers,
            )
            &&& a.accept@ == b.accept@
            &&& a.json_body == b.json_body
        },
        (Err(a), Err(b)) => a@ == b@,
        _ => false,
    }
}

/// Two calls with the same profile, mode, URL, query and headers send the same
/// request, whether their bodies are read to the end or left to the caller.
pub proof fn law_same_call_same_request(
    a: Result<HttpCallPlan, String>,
    b: Result<HttpCallPlan, String>,
    profile: HttpRequestProfile,
    call_mode: HttpCallMode,
    resolved_url: Seq<char>,
    request_query: Option<Seq<char>>,
    request_headers: Seq<(Seq<char>, Seq<char>)>,
    idempotency_key: Option<Seq<char>>,
    operator_has_idempotency_key: bool,
)
    requires
        planned(
            a,
            profile.method,
            profile.require_json_response,
            call_mode,
            requested_url(resolved_url, request_query),
            per_call_contents(request_headers, idempotency_key, operator_has_idempotency_key),
        ),
        planned(
            b,
            profile.method,
            profile.require_json_response,
            call_mode,
            requested_url(resolved_url, request_query),
            per_call_contents(request_headers, idempotency_key, operator_has_idempotency_key),
        ),
    ensures
        same_request(a, b),
{
}

/// The message for a request that got no response.
pub fn request_error(error: &str) -> (message: String)
    ensures
        message@ == "HTTP request failed: "@ + error@,
{
    let mut message = "HTTP request failed: ".to_owned();
    message.append(error);
    message
}

/// The delay in milliseconds that a `retry-after` value in seconds asks for.
/// `None` where the value is no number or the delay does not fit 64 bits.
pub open spec fn retry_after_delay(value: Seq<char>) -> Option<u64> {
    match crate::text::unsigned(crate::text::trim(value)) {
        Some(seconds) if seconds * 1000 <= u64::MAX => Some((seconds * 1000) as u64),
        _ => None,
    }
}

fn retry_after_of(value: &[char]) -> (delay: Option<u64>)
    ensures
        delay == retry_after_delay(value@),
{
    match parse_unsigned(trimmed(value)) {
        Some(seconds) => seconds.checked_mul(1_000),
        None => None,
    }
}

/// Computes [`retry_after_delay`].
pub fn parse_retry_after_ms(value: &str) -> (delay: Option<u64>)
    ensures
        delay == retry_after_delay(value@),
{
    let chars = chars_of(value);
    retry_after_of(chars.as_slice())
}

/// A header's value as text, where the header is there and all of it is visible.
pub open spec fn optional_visible(value: Option<Seq<u8>>) -> Option<Seq<char>> {
    match value {
        Some(bytes) => crate::headers::visible_text(bytes),
        None => None,
    }
}

fn visible_value(value: &Option<Vec<u8>>) -> (text: Option<Vec<char>>)
    ensures
        match text {
            Some(chars) => optional_visible(crate::headers::optional_bytes(*value)) == Some(chars@),
            None => optional_visible(crate::headers::optional_bytes(*value)) is None,
        },
{
    match value {
        Some(bytes) => header_text(bytes.as_slice()),
        None => None,
    }
}

/// Whether one of the parts of `text` between the separators is `word`, white
/// space around it and its case aside.
pub open spec fn lists(text: Seq<char>, separator: char, word: Seq<char>) -> bool {
    exists|i: int|
        0 <= i < crate::text::split(text, separator).len() && crate::text::eq_ignore_case(
            crate::text::trim(#[trigger] crate::text::split(text, separator)[i]),
            word,
        )
}

proof fn lemma_lists(text: Seq<char>, separator: char, word: Seq<char>)
    ensures
        ({
            let place = crate::text::char_index(text, separator);
            lists(text, separator, word) <==> crate::text::eq_ignore_case(
                crate::text::trim(crate::text::before(text, separator)),
                word,
            ) || (place < text.len() && lists(text.skip(place + 1), separator, word))
        }),
{
    let place = crate::text::char_index(text, separator);
    let parts = crate::text::split(text, separator);
    crate::text::lemma_char_index(text, separator);
    if place < text.len() {
        let rest = crate::text::split(text.skip(place + 1), separator);
        assert(parts == seq![text.take(place)] + rest);
        assert(parts[0] == text.take(place));
        assert forall|i: int| 0 <= i < rest.len() implies #[trigger] rest[i] == parts[i + 1] by {}
        if lists(text, separator, word) {
            let i = choose|i: int|
                0 <= i < parts.len() && crate::text::eq_ignore_case(
                    crate::text::trim(#[trigger] parts[i]),
                    word,
                );
            if i > 0 {
                assert(rest[i - 1] == parts[i]);
            }
        }
        if lists(text.skip(place + 1), separator, word) {
            let i = choose|i: int|
                0 <= i < rest.len() && crate::text::eq_ignore_case(
                    crate::text::trim(#[trigger] rest[i]),
                    word,
                );
            assert(parts[i + 1] == rest[i]);
        }
    } else {
        assert(text.take(place) =~= text);
        assert(parts[0] == text);
    }
}

fn is_word(part: &[char], word: &str) -> (yes: bool)
    ensures
        yes == crate::text::eq_ignore_case(crate::text::trim(part@), word@),
{
    let lower = lowercased(trimmed(part));
    let wanted = chars_of(word);
    let lower_wanted = lowercased(wanted.as_slice());
    same_chars(lower.as_slice(), lower_wanted.as_slice())
}

fn lists_word(text: &[char], separator: char, word: &str) -> (yes: bool)
    ensures
        yes == lists(text@, separator, word@),
{
    let mut start: usize = 0;
    assert(text@.skip(0) =~= text@);
    loop
        invariant
            start <= text@.len(),
            lists(text@, separator, word@) == lists(text@.skip(start as int), separator, word@),
        decreases text@.len() - start,
    {
        let rest = slice_subrange(text, start, text.len());
        assert(rest@ =~= text@.skip(start as int));
        proof {
            lemma_lists(rest@, separator, word@);
        }
        if is_word(part_before(rest, separator), word) {
            return true;
        }
        let place = find_char(rest, separator);
        if place >= rest.len() {
            return false;
        }
        assert(rest@.skip(place + 1) =~= text@.skip(start + place + 1));
        start = start + place + 1;
    }
}

/// The text, or an empty one.
pub open spec fn or_empty(text: Option<Seq<char>>) -> Seq<char> {
    match text {
        Some(text) => text,
        None => Seq::empty(),
    }
}

/// Whether a response arrives in pieces over time: it is sent chunked, it is a
/// stream of server-sent events, or it does not say how long it is.
pub open spec fn is_streaming(
    transfer_encoding: Option<Seq<u8>>,
    content_type: Option<Seq<u8>>,
    content_length: Option<Seq<u8>>,
) -> bool {
    ||| lists(or_empty(optional_visible(transfer_encoding)), ',', "chunked"@)
    ||| crate::text::eq_ignore_case(
        crate::text::trim(crate::text::before(or_empty(optional_visible(content_type)), ';')),
        "text/event-stream"@,
    )
    ||| content_length is None
}

/// Decides [`is_streaming`].
pub fn streams(
    transfer_encoding: &Option<Vec<u8>>,
    content_type: &Option<Vec<u8>>,
    content_length: &Option<Vec<u8>>,
) -> (yes: bool)
    ensures
        yes == is_streaming(
            crate::headers::optional_bytes(*transfer_encoding),
            crate::headers::optional_bytes(*content_type),
            crate::headers::optional_bytes(*content_length),
        ),
{
    let codings = match visible_value(transfer_encoding) {
        Some(chars) => chars,
        None => Vec::new(),
    };
    let media_type = match visible_value(content_type) {
        Some(chars) => chars,
        None => Vec::new(),
    };
    assert(codings@ =~= or_empty(
        optional_visible(crate::headers::optional_bytes(*transfer_encoding)),
    ));
    assert(media_type@ =~= or_empty(
        optional_visible(crate::headers::optional_bytes(*content_type)),
    ));
    lists_word(codings.as_slice(), ',', "chunked") || is_word(
        part_before(media_type.as_slice(), ';'),
        "text/event-stream",
    ) || content_length.is_none()
}

proof fn lemma_response_header_names()
    ensures
        crate::headers::is_header_name("transfer-encoding"@),
        crate::headers::is_header_name("content-type"@),
        crate::headers::is_header_name("content-length"@),
        crate::headers::is_header_name("retry-after"@),
{
    reveal_strlit("transfer-encoding");
    reveal_strlit("content-type");
    reveal_strlit("content-length");
    reveal_strlit("retry-after");
}

/// Whether the response with these headers arrives in pieces over time.
pub open spec fn tells_of_streaming(contents: crate::headers::HeaderContents) -> bool {
    is_streaming(
        crate::headers::first_value(contents, "transfer-encoding"@),
        crate::headers::first_value(contents, "content-type"@),
        crate::headers::first_value(contents, "content-length"@),
    )
}

/// Decides whether the response with these headers arrives in pieces over time.
pub fn response_is_streaming(headers: &reqwest::header::HeaderMap) -> (yes: bool)
    ensures
        yes == tells_of_streaming(crate::headers::header_contents(*headers)),
{
    proof {
        lemma_response_header_names();
    }
    let transfer_encoding = get_header(headers, "transfer-encoding");
    let content_type = get_header(headers, "content-type");
    let content_length = get_header(headers, "content-length");
    streams(&transfer_encoding, &content_type, &content_length)
}

/// What the headers of a response say.
pub struct ResponseMeta {
    /// The content type, where there is one and all of it is visible.
    pub content_type: Option<String>,
    /// The delay that the response asks for, in milliseconds.
    pub retry_after_ms: Option<u64>,
    /// Whether the body arrives in pieces over time.
    pub is_streaming: bool,
}

/// The delay that an optional `retry-after` value asks for.
pub open spec fn optional_delay(retry_after: Option<Seq<u8>>) -> Option<u64> {
    match optional_visible(retry_after) {
        Some(text) => retry_after_delay(text),
        None => None,
    }
}

/// Reads the values of four response headers.
pub fn response_meta(
    content_type: Option<Vec<u8>>,
    retry_after: Option<Vec<u8>>,
    transfer_encoding: Option<Vec<u8>>,
    content_length: Option<Vec<u8>>,
) -> (meta: ResponseMeta)
    ensures
        crate::text::optional_text(meta.content_type) == optional_visible(
            crate::headers::optional_bytes(content_type),
        ),
        meta.retry_after_ms == optional_delay(crate::headers::optional_bytes(retry_after)),
        meta.is_streaming == is_streaming(
            crate::headers::optional_bytes(transfer_encoding),
            crate::headers::optional_bytes(content_type),
            crate::headers::optional_bytes(content_length),
        ),
{
    let is_streaming = streams(&transfer_encoding, &content_type, &content_length);
    let retry_after_ms = match visible_value(&retry_after) {
        Some(chars) => retry_after_of(chars.as_slice()),
        None => None,
    };
    let content_type = match visible_value(&content_type) {
        Some(chars) => Some(text_of(chars.as_slice())),
        None => None,
    };
    ResponseMeta { content_type, retry_after_ms, is_streaming }
}

/// Whether `meta` is what these headers say.
pub open spec fn told_by(meta: ResponseMeta, contents: crate::headers::HeaderContents) -> bool {
    &&& crate::text::optional_text(meta.content_type) == optional_visible(
        crate::headers::first_value(contents, "content-type"@),
    )
    &&& meta.retry_after_ms == optional_delay(
        crate::headers::first_value(contents, "retry-after"@),
    )
    &&& meta.is_streaming == tells_of_streaming(contents)
}

/// Reads the headers of a response.
pub fn read_response_meta(headers: &reqwest::header::HeaderMap) -> (meta: ResponseMeta)
    ensures
        told_by(meta, crate::headers::header_contents(*headers)),
{
    proof {
        lemma_response_header_names();
    }
    let content_type = get_header(headers, "content-type");
    let retry_after = get_header(headers, "retry-after");
    let transfer_encoding = get_header(headers, "transfer-encoding");
    let content_length = get_header(headers, "content-length");
    response_meta(content_type, retry_after, transfer_encoding, content_length)
}

/// Whether a summary has this status and what was read of the headers.
pub open spec fn sums_up(
    summary: HttpResponseSummary,
    status: u16,
    content_type: Option<String>,
    retry_after_ms: Option<u64>,
) -> bool {
    &&& summary.status_code == status
    &&& summary.content_type == content_type
    &&& summary.retry_after_ms == retry_after_ms
}

/// The summary of a response from its parts.
pub fn finalize_http_summary(
    handle_status: u16,
    handle_content_type: Option<String>,
    handle_retry_after_ms: Option<u64>,
    elapsed_ms: u128,
    body: String,
    body_truncated: bool,
) -> (summary: HttpResponseSummary)
    ensures
        sums_up(summary, handle_status, handle_content_type, handle_retry_after_ms),
        summary.body == body,
        summary.body_truncated == body_truncated,
        summary.duration_ms == elapsed_ms,
{
    HttpResponseSummary {
        status_code: handle_status,
        content_type: handle_content_type,
        retry_after_ms: handle_retry_after_ms,
        body,
        body_truncated,
        duration_ms: elapsed_ms,
    }
}

/// A call that is read to its end and one whose body is left to the caller tell the
/// same of the same response: status, content type and the delay before a retry. What
/// they tell of streaming is what the headers say.
pub proof fn law_both_call_forms_read_the_same(
    contents: crate::headers::HeaderContents,
    status: u16,
    left: ResponseMeta,
    read: ResponseMeta,
    summary: HttpResponseSummary,
)
    requires
        told_by(left, contents),
        told_by(read, contents),
        sums_up(summary, status, read.content_type, read.retry_after_ms),
    ensures
        summary.status_code == status,
        crate::text::optional_text(summary.content_type) == crate::text::optional_text(
            left.content_type,
        ),
        summary.retry_after_ms == left.retry_after_ms,
        left.is_streaming == tells_of_streaming(contents),
{
}

/// Names the pairs that a server reads under a key.
pub open spec fn under_key(key: Seq<u8>) -> spec_fn((Seq<u8>, Seq<u8>)) -> bool {
    |pair: (Seq<u8>, Seq<u8>)| pair.0 == key
}

/// Keys and values as a server reads them: their UTF-8 bytes.
pub open spec fn read_pairs(pairs: Seq<(Seq<char>, Seq<char>)>) -> Seq<(Seq<u8>, Seq<u8>)> {
    pairs.map_values(
        |pair: (Seq<char>, Seq<char>)|
            (vstd::utf8::encode_utf8(pair.0), vstd::utf8::encode_utf8(pair.1)),
    )
}

/// The text that stands for an argument in a query: a string as it is, a number as it is
/// written, a word for a truth value and for null, and compact JSON for the rest.
pub open spec fn stands_for(text: Seq<char>, value: crate::json::Json) -> bool {
    match value {
        crate::json::Json::String(string) => text == string,
        crate::json::Json::Number(digits) => text == digits,
        crate::json::Json::Bool(true) => text == "true"@,
        crate::json::Json::Bool(false) => text == "false"@,
        crate::json::Json::Null => text == "null"@,
        crate::json::Json::Array(_) => text == crate::json::json_text(value),
        crate::json::Json::Object(_) => text == crate::json::json_text(value),
    }
}

proof fn lemma_same_bytes(a: Seq<char>, b: Seq<char>)
    requires
        vstd::utf8::encode_utf8(a) == vstd::utf8::encode_utf8(b),
    ensures
        a == b,
{
    vstd::utf8::encode_utf8_decode_utf8(a);
    vstd::utf8::encode_utf8_decode_utf8(b);
}

proof fn lemma_filter_constant<A>(items: Seq<A>, pred: spec_fn(A) -> bool, all: bool)
    requires
        forall|i: int| 0 <= i < items.len() ==> pred(#[trigger] items[i]) == all,
    ensures
        items.filter(pred) == (if all {
            items
        } else {
            Seq::empty()
        }),
    decreases items.len(),
{
    reveal(Seq::filter);
    if items.len() > 0 {
        let shorter = items.drop_last();
        assert forall|i: int| 0 <= i < shorter.len() implies pred(#[trigger] shorter[i]) == all by {
            assert(shorter[i] == items[i]);
        }
        lemma_filter_constant(shorter, pred, all);
        assert(pred(items[items.len() - 1]) == all);
        assert(items.filter(pred) =~= (if all {
            items
        } else {
            Seq::empty()
        }));
    } else {
        assert(items.filter(pred) =~= Seq::empty());
        assert(items =~= Seq::empty());
    }
}

/// What a server reads under the key of an argument is what that argument contributes.
proof fn lemma_read_under_key(
    arguments: Seq<(Seq<char>, crate::json::Json)>,
    level: spec_fn((Seq<char>, crate::json::Json)) -> bool,
    key: Seq<char>,
)
    requires
        forall|argument: (Seq<char>, crate::json::Json)| #[trigger]
            level(argument) <==> argument.0 == key,
    ensures
        read_pairs(arguments_pairs(arguments)).filter(under_key(vstd::utf8::encode_utf8(key)))
            == read_pairs(arguments_pairs(arguments.filter(level))),
    decreases arguments.len(),
{
    reveal(Seq::filter);
    let wanted = under_key(vstd::utf8::encode_utf8(key));
    if arguments.len() > 0 {
        let shorter = arguments.drop_last();
        let last = arguments.last();
        let (front, back) = (arguments_pairs(shorter), argument_pairs(last));
        lemma_read_under_key(shorter, level, key);
        assert(read_pairs(front + back) =~= read_pairs(front) + read_pairs(back));
        Seq::filter_distributes_over_add(read_pairs(front), read_pairs(back), wanted);
        let same = last.0 == key;
        assert forall|i: int| 0 <= i < read_pairs(back).len() implies wanted(
            #[trigger] read_pairs(back)[i],
        ) == same by {
            assert(back[i].0 == last.0);
            if wanted(read_pairs(back)[i]) {
                lemma_same_bytes(last.0, key);
            }
        }
        lemma_filter_constant(read_pairs(back), wanted, same);
        let kept = shorter.filter(level);
        assert(level(last) <==> same);
        if same {
            let all = kept.push(last);
            assert(arguments.filter(level) == all);
            assert(all.drop_last() =~= kept);
            assert(read_pairs(arguments_pairs(kept) + back) =~= read_pairs(arguments_pairs(kept))
                + read_pairs(back));
        } else {
            assert(arguments.filter(level) == kept);
            assert(read_pairs(front).filter(wanted) + Seq::empty() =~= read_pairs(front).filter(
                wanted,
            ));
        }
    } else {
        assert(read_pairs(arguments_pairs(arguments)) =~= Seq::empty());
        assert(read_pairs(arguments_pairs(arguments)).filter(wanted) =~= Seq::empty());
        assert(read_pairs(arguments_pairs(arguments.filter(level))) =~= Seq::empty());
    }
}

proof fn lemma_filter_one<A>(items: Seq<A>, pred: spec_fn(A) -> bool, i: int)
    requires
        0 <= i < items.len(),
        forall|j: int| 0 <= j < items.len() ==> (pred(#[trigger] items[j]) <==> j == i),
    ensures
        items.filter(pred) == seq![items[i]],
    decreases items.len(),
{
    reveal(Seq::filter);
    let shorter = items.drop_last();
    assert(pred(items[items.len() - 1]) <==> items.len() - 1 == i);
    if i == items.len() - 1 {
        assert forall|j: int| 0 <= j < shorter.len() implies pred(#[trigger] shorter[j])
            == false by {
            assert(shorter[j] == items[j]);
        }
        lemma_filter_constant(shorter, pred, false);
        assert(items.filter(pred) =~= seq![items[i]]);
    } else {
        assert forall|j: int| 0 <= j < shorter.len() implies (pred(#[trigger] shorter[j]) <==> j
            == i) by {
            assert(shorter[j] == items[j]);
        }
        lemma_filter_one(shorter, pred, i);
        assert(shorter[i] == items[i]);
    }
}

/// A server reads under the key of an argument exactly its value: the bytes of the text
/// that stands for it, which is the string itself for a string, once; and for an array
/// those of each of its items, in order.
pub proof fn law_server_reads_every_argument(
    arguments: &JsonValue,
    query: Result<String, String>,
    entries: Seq<(Seq<char>, crate::json::Json)>,
    i: int,
)
    requires
        call_ensures(build_query_string, (arguments,), query),
        arguments.model() == crate::json::Json::Object(entries),
        0 <= i < entries.len(),
        forall|j: int| 0 <= j < entries.len() && j != i ==> (#[trigger] entries[j]).0
            != entries[i].0,
    ensures
        query is Ok,
        ({
            let key = vstd::utf8::encode_utf8(entries[i].0);
            let read = read_query(query->Ok_0@).filter(under_key(key));
            match entries[i].1 {
                crate::json::Json::Array(items) => {
                    &&& read.len() == items.len()
                    &&& forall|n: int|
                        0 <= n < items.len() ==> exists|text: Seq<char>|
                            #[trigger] read[n] == (key, #[trigger] vstd::utf8::encode_utf8(text))
                                && stands_for(text, items[n])
                },
                value => {
                    &&& read.len() == 1
                    &&& exists|text: Seq<char>|
                        read[0] == (key, #[trigger] vstd::utf8::encode_utf8(text)) && stands_for(
                            text,
                            value,
                        )
                },
            }
        }),
{
    let le = crate::sort::by_first::<crate::json::Json>();
    let argument = entries[i];
    let level = crate::sort::level_with(argument, le);
    let key = vstd::utf8::encode_utf8(argument.0);
    assert forall|other: (Seq<char>, crate::json::Json)| #[trigger]
        level(other) <==> other.0 == argument.0 by {
        crate::sort::lemma_text_le_total(other.0, argument.0);
        crate::sort::lemma_text_le_reflexive(argument.0);
    }
    assert(crate::sort::is_preorder(le)) by {
        assert forall|a: (Seq<char>, crate::json::Json), b: (Seq<char>, crate::json::Json)|
            #[trigger] le(a, b) || le(b, a) by {
            crate::sort::lemma_text_le_total(a.0, b.0);
        }
        assert forall|
            a: (Seq<char>, crate::json::Json),
            b: (Seq<char>, crate::json::Json),
            c: (Seq<char>, crate::json::Json),
        |
            #[trigger] le(a, b) && #[trigger] le(b, c) implies le(a, c) by {
            crate::sort::lemma_text_le_transitive(a.0, b.0, c.0);
        }
    }
    let ordered = crate::sort::stable_sort(entries, le);
    crate::sort::law_sort_is_stable(entries, le, argument);
    assert forall|j: int| 0 <= j < entries.len() implies (level(#[trigger] entries[j]) <==> j
        == i) by {}
    lemma_filter_one(entries, level, i);
    lemma_read_under_key(ordered, level, argument.0);
    law_query_reads_back(arguments_pairs(ordered));
    let one = seq![argument];
    assert(one.drop_last() =~= Seq::empty());
    assert(arguments_pairs(one.drop_last()) =~= Seq::empty());
    assert(arguments_pairs(one) =~= argument_pairs(argument));
    let read = read_query(query->Ok_0@).filter(under_key(key));
    assert(read == read_pairs(argument_pairs(argument)));
    match argument.1 {
        crate::json::Json::Array(items) => {
            assert forall|n: int| 0 <= n < items.len() implies exists|text: Seq<char>|
                #[trigger] read[n] == (key, #[trigger] vstd::utf8::encode_utf8(text))
                    && stands_for(text, items[n]) by {
                assert(read[n] == (key, vstd::utf8::encode_utf8(query_value(items[n]))));
                assert(stands_for(query_value(items[n]), items[n]));
            }
        },
        value => {
            assert(read[0] == (key, vstd::utf8::encode_utf8(query_value(value))));
            assert(stands_for(query_value(value), value));
        },
    }
}

/// A server reads nothing but the arguments: every key that it reads is that of one.
pub proof fn law_server_reads_arguments_alone(
    arguments: &JsonValue,
    query: Result<String, String>,
    entries: Seq<(Seq<char>, crate::json::Json)>,
    n: int,
)
    requires
        call_ensures(build_query_string, (arguments,), query),
        arguments.model() == crate::json::Json::Object(entries),
        0 <= n < read_query(query->Ok_0@).len(),
    ensures
        exists|i: int|
            0 <= i < entries.len() && read_query(query->Ok_0@)[n].0 == vstd::utf8::encode_utf8(
                (#[trigger] entries[i]).0,
            ),
{
    broadcast use vstd::seq_lib::group_to_multiset_ensures;

    let le = crate::sort::by_first::<crate::json::Json>();
    let ordered = crate::sort::stable_sort(entries, le);
    let pairs = arguments_pairs(ordered);
    law_query_reads_back(pairs);
    lemma_pairs_come_from_arguments(ordered, n);
    let j = choose|j: int| 0 <= j < ordered.len() && pairs[n].0 == (#[trigger] ordered[j]).0;
    crate::sort::law_sort_keeps_items(entries, le);
    assert(ordered.contains(ordered[j]));
    assert(ordered.to_multiset().count(ordered[j]) > 0);
    assert(entries.contains(ordered[j]));
    let i = choose|i: int| 0 <= i < entries.len() && entries[i] == ordered[j];
    assert(read_query(query->Ok_0@)[n].0 == vstd::utf8::encode_utf8(entries[i].0));
}

proof fn lemma_pairs_come_from_arguments(
    arguments: Seq<(Seq<char>, crate::json::Json)>,
    n: int,
)
    requires
        0 <= n < arguments_pairs(arguments).len(),
    ensures
        exists|j: int|
            0 <= j < arguments.len() && arguments_pairs(arguments)[n].0 == (
            #[trigger] arguments[j]).0,
    decreases arguments.len(),
{
    let shorter = arguments.drop_last();
    let front = arguments_pairs(shorter);
    if n < front.len() {
        lemma_pairs_come_from_arguments(shorter, n);
        let j = choose|j: int| 0 <= j < shorter.len() && front[n].0 == (#[trigger] shorter[j]).0;
        assert(arguments[j] == shorter[j]);
        assert(arguments_pairs(arguments)[n] == front[n]);
    } else {
        let back = argument_pairs(arguments.last());
        assert(arguments_pairs(arguments)[n] == back[n - front.len()]);
        assert(arguments[arguments.len() - 1].0 == back[n - front.len()].0);
    }
}

/// The keys of a query ascend: its text does not depend on how the arguments were given.
pub proof fn law_query_keys_ascend(
    arguments: &JsonValue,
    query: Result<String, String>,
    a: int,
    b: int,
)
    requires
        call_ensures(build_query_string, (arguments,), query),
        query is Ok,
        0 <= a < b < read_query(query->Ok_0@).len(),
    ensures
        exists|first: Seq<char>, second: Seq<char>|
            {
                &&& read_query(query->Ok_0@)[a].0 == #[trigger] vstd::utf8::encode_utf8(first)
                &&& read_query(query->Ok_0@)[b].0 == #[trigger] vstd::utf8::encode_utf8(second)
                &&& crate::sort::text_le(first, second)
            },
{
    let entries = arguments.model()->Object_0;
    let le = crate::sort::by_first::<crate::json::Json>();
    assert(crate::sort::is_preorder(le)) by {
        assert forall|a: (Seq<char>, crate::json::Json), b: (Seq<char>, crate::json::Json)|
            #[trigger] le(a, b) || le(b, a) by {
            crate::sort::lemma_text_le_total(a.0, b.0);
        }
        assert forall|
            a: (Seq<char>, crate::json::Json),
            b: (Seq<char>, crate::json::Json),
            c: (Seq<char>, crate::json::Json),
        |
            #[trigger] le(a, b) && #[trigger] le(b, c) implies le(a, c) by {
            crate::sort::lemma_text_le_transitive(a.0, b.0, c.0);
        }
    }
    let ordered = crate::sort::stable_sort(entries, le);
    crate::sort::law_sort_is_in_order(entries, le);
    let pairs = arguments_pairs(ordered);
    law_query_reads_back(pairs);
    lemma_pairs_ascend(ordered, a, b);
    assert(read_query(query->Ok_0@)[a].0 == vstd::utf8::encode_utf8(pairs[a].0));
    assert(read_query(query->Ok_0@)[b].0 == vstd::utf8::encode_utf8(pairs[b].0));
}

proof fn lemma_pairs_ascend(arguments: Seq<(Seq<char>, crate::json::Json)>, a: int, b: int)
    requires
        crate::sort::in_order(arguments, crate::sort::by_first::<crate::json::Json>()),
        0 <= a < b < arguments_pairs(arguments).len(),
    ensures
        crate::sort::text_le(arguments_pairs(arguments)[a].0, arguments_pairs(arguments)[b].0),
    decreases arguments.len(),
{
    let le = crate::sort::by_first::<crate::json::Json>();
    let shorter = arguments.drop_last();
    let front = arguments_pairs(shorter);
    let back = argument_pairs(arguments.last());
    assert forall|i: int, j: int| 0 <= i < j < shorter.len() implies le(
        #[trigger] shorter[i],
        #[trigger] shorter[j],
    ) by {
        assert(le(arguments[i], arguments[j]));
    }
    let all = arguments_pairs(arguments);
    if b < front.len() {
        lemma_pairs_ascend(shorter, a, b);
        assert(all[a] == front[a] && all[b] == front[b]);
    } else {
        assert(all[b] == back[b - front.len()]);
        assert(all[b].0 == arguments.last().0);
        if a < front.len() {
            lemma_pairs_come_from_arguments(shorter, a);
            let j = choose|j: int| 0 <= j < shorter.len() && front[a].0 == (
            #[trigger] shorter[j]).0;
            assert(all[a] == front[a]);
            assert(le(arguments[j], arguments[arguments.len() - 1]));
        } else {
            assert(all[a] == back[a - front.len()]);
            crate::sort::lemma_text_le_reflexive(arguments.last().0);
        }
    }
}

/// Arguments that are no object have no query, and are refused with a message.
pub proof fn law_only_objects_make_a_query(arguments: &JsonValue, query: Result<String, String>)
    requires
        call_ensures(build_query_string, (arguments,), query),
    ensures
        query is Ok <==> arguments.model() is Object,
        query matches Err(message) ==> message@
            == "HTTP query call arguments must be a JSON object"@,
{
}

/// The URL of a request is the resolved URL where the call has no query or an empty one.
/// Else it is the resolved URL with its query set to the one that it has, one `&` and that
/// of the call, or to that of the call alone where it has none. A URL that does not parse
/// is refused, and with it the reason.
pub proof fn law_request_url_keeps_and_adds(
    resolved_url: &str,
    request_query: Option<&str>,
    url: Result<String, String>,
)
    requires
        call_ensures(request_url, (resolved_url, request_query), url),
    ensures
        ({
            let parsed = crate::url::parsed_url(resolved_url@);
            let query = request_query->Some_0@;
            &&& url is Err <==> parsed is Err
            &&& url matches Err(message) ==> message@ == "invalid URL: "@ + parsed->Err_0
            &&& parsed is Ok && (request_query is None || query.len() == 0) ==> url->Ok_0@
                == resolved_url@
            &&& parsed is Ok && request_query is Some && query.len() > 0 ==> url->Ok_0@
                == crate::url::url_with_query(
                resolved_url@,
                if parsed->Ok_0.query is Some && parsed->Ok_0.query->Some_0.len() > 0 {
                    parsed->Ok_0.query->Some_0 + seq!['&'] + query
                } else {
                    query
                },
            )
        }),
{
    if crate::url::parsed_url(resolved_url@) is Ok && request_query is Some {
        crate::url::law_added_query_is_merged(
            resolved_url@,
            crate::url::parsed_url(resolved_url@)->Ok_0,
            request_query->Some_0@,
        );
    }
}

/// A server reads in the query of a request what it reads in the query of the resolved URL,
/// then what it reads in that of the call.
pub proof fn law_server_reads_both_queries(existing: Seq<char>, query: Seq<char>)
    requires
        existing.len() > 0,
        query.len() > 0,
    ensures
        read_query(crate::url::merged_query(Some(existing), query)) == read_query(existing)
            + read_query(query),
{
    crate::url::law_merged_query_has_all_parameters(existing, query);
    let merged = crate::url::merged_query(Some(existing), query);
    reveal_strlit("&");
    assert(merged.len() > 0);
    assert(read_query(merged) =~= read_query(existing) + read_query(query));
}

/// A plan has the method of the profile, asks for JSON exactly where the profile requires
/// it and for anything else, and carries the arguments as a JSON body exactly in that mode.
/// Its URL is that of the request, and its headers are those of the call. It fails exactly
/// where the URL or the headers do, and the URL is looked at first.
pub proof fn law_plan_follows_the_profile(
    profile: &HttpRequestProfile,
    call_mode: HttpCallMode,
    request_query: Option<&str>,
    request_headers: &[(String, String)],
    idempotency_key: Option<&str>,
    operator_has_idempotency_key: bool,
    resolved_url: &str,
    plan: Result<HttpCallPlan, String>,
    url: Result<String, String>,
    headers: Result<reqwest::header::HeaderMap, String>,
)
    requires
        call_ensures(
            plan_http_call,
            (
                profile,
                call_mode,
                request_query,
                request_headers,
                idempotency_key,
                operator_has_idempotency_key,
                resolved_url,
            ),
            plan,
        ),
        call_ensures(request_url, (resolved_url, request_query), url),
        call_ensures(
            build_per_call_headers,
            (request_headers, idempotency_key, operator_has_idempotency_key),
            headers,
        ),
    ensures
        plan is Ok <==> url is Ok && headers is Ok,
        url matches Err(message) ==> plan is Err && plan->Err_0@ == message@,
        url is Ok && headers is Err ==> plan is Err && plan->Err_0@ == headers->Err_0@,
        plan matches Ok(plan) ==> {
            &&& plan.method == profile.method
            &&& plan.url@ == url->Ok_0@
            &&& crate::headers::header_contents(plan.headers) == crate::headers::header_contents(
                headers->Ok_0,
            )
            &&& profile.require_json_response ==> plan.accept@ == "application/json"@
            &&& !profile.require_json_response ==> plan.accept@ == "*/*"@
            &&& plan.json_body <==> call_mode == HttpCallMode::JsonBody
        },
{
}

proof fn lemma_case_keeps_white_space(name: Seq<char>, word: Seq<char>)
    requires
        crate::text::lowercase(name) == word,
        forall|i: int| 0 <= i < word.len() ==> !crate::text::is_white_space(#[trigger] word[i]),
    ensures
        crate::text::trim(name) == name,
{
    assert forall|i: int| 0 <= i < name.len() implies !crate::text::is_white_space(
        #[trigger] name[i],
    ) by {
        assert(word[i] == crate::text::lower_char(name[i]));
    }
    crate::text::lemma_trim_nothing(name);
}

proof fn lemma_trace_words()
    ensures
        crate::text::lowercase("traceparent"@) == "traceparent"@,
        crate::text::lowercase("tracestate"@) == "tracestate"@,
        forall|i: int|
            0 <= i < "traceparent"@.len() ==> !crate::text::is_white_space(
                #[trigger] "traceparent"@[i],
            ),
        forall|i: int|
            0 <= i < "tracestate"@.len() ==> !crate::text::is_white_space(
                #[trigger] "tracestate"@[i],
            ),
{
    reveal_strlit("traceparent");
    reveal_strlit("tracestate");
    assert(crate::text::lowercase("traceparent"@) =~= "traceparent"@);
    assert(crate::text::lowercase("tracestate"@) =~= "tracestate"@);
}

proof fn lemma_trace_value(entries: Seq<(Seq<char>, Seq<char>)>, word: Seq<char>, i: int)
    requires
        trace_contents(entries) is Ok,
        word == "traceparent"@ || word == "tracestate"@,
        0 <= i < entries.len(),
        crate::text::eq_ignore_case(entries[i].0, word),
        forall|j: int|
            i < j < entries.len() ==> !crate::text::eq_ignore_case((#[trigger] entries[j]).0, word),
    ensures
        trace_contents(entries)->Ok_0.contains_key(word),
        trace_contents(entries)->Ok_0[word] == seq![vstd::utf8::encode_utf8(entries[i].1)],
{
    lemma_trace_words();
    assert(crate::text::lowercase(entries[i].0) == word);
    lemma_case_keeps_white_space(entries[i].0, word);
    assert(is_trace_header(entries[i].0));
    assert forall|j: int| i < j < entries.len() implies !crate::text::eq_ignore_case(
        (#[trigger] entries[j]).0,
        entries[i].0,
    ) by {
        assert(!crate::text::eq_ignore_case(entries[j].0, word));
    }
    law_trace_headers_are_passed_on(entries, i);
}

proof fn lemma_trace_key_comes_from_entry(entries: Seq<(Seq<char>, Seq<char>)>, word: Seq<char>)
    requires
        trace_contents(entries) is Ok,
        trace_contents(entries)->Ok_0.contains_key(word),
        word == "traceparent"@ || word == "tracestate"@,
    ensures
        exists|i: int|
            0 <= i < entries.len() && crate::text::eq_ignore_case((#[trigger] entries[i]).0, word),
    decreases entries.len(),
{
    lemma_trace_words();
    if entries.len() > 0 {
        let shorter = entries.drop_last();
        let last = entries.last();
        if is_trace_header(last.0) && crate::text::lowercase(last.0) == word {
            assert(crate::text::eq_ignore_case(entries[entries.len() - 1].0, word));
        } else {
            lemma_trace_key_comes_from_entry(shorter, word);
            let i = choose|i: int|
                0 <= i < shorter.len() && crate::text::eq_ignore_case(
                    (#[trigger] shorter[i]).0,
                    word,
                );
            assert(entries[i] == shorter[i]);
        }
    }
}

/// Of the headers of a request a call passes on `traceparent` and `tracestate`, in whatever
/// case they are written, each with the value that the request gave it last, and nothing
/// else.
pub proof fn law_trace_headers_alone_are_passed_on(
    request_headers: &[(String, String)],
    idempotency_key: Option<&str>,
    operator_has_idempotency_key: bool,
    map: reqwest::header::HeaderMap,
    name: Seq<char>,
)
    requires
        call_ensures(
            build_per_call_headers,
            (request_headers, idempotency_key, operator_has_idempotency_key),
            Ok(map),
        ),
    ensures
        ({
            let contents = crate::headers::header_contents(map);
            let given = request_headers@;
            &&& contents.contains_key(name) ==> name == "traceparent"@ || name == "tracestate"@
                || name == "idempotency-key"@
            &&& name == "traceparent"@ || name == "tracestate"@ ==> (contents.contains_key(name)
                <==> exists|i: int|
                0 <= i < given.len() && crate::text::eq_ignore_case(
                    (#[trigger] given[i]).0@,
                    name,
                ))
            &&& name == "traceparent"@ || name == "tracestate"@ ==> forall|i: int|
                0 <= i < given.len() && crate::text::eq_ignore_case((#[trigger] given[i]).0@, name)
                    && (forall|j: int|
                    i < j < given.len() ==> !crate::text::eq_ignore_case(
                        (#[trigger] given[j]).0@,
                        name,
                    )) ==> contents[name] == seq![vstd::utf8::encode_utf8(given[i].1@)]
        }),
{
    let contents = crate::headers::header_contents(map);
    let given = request_headers@;
    let entries = crate::types::pairs_model(given);
    let key = crate::text::optional_str(idempotency_key);
    assert(per_call_contents(entries, key, operator_has_idempotency_key) is Ok);
    assert(trace_contents(entries) is Ok);
    if contents.contains_key(name) {
        law_per_call_headers_are_few(entries, key, operator_has_idempotency_key, name);
    }
    if name == "traceparent"@ || name == "tracestate"@ {
        reveal_strlit("idempotency-key");
        reveal_strlit("traceparent");
        reveal_strlit("tracestate");
        assert("idempotency-key"@.len() == 15);
        assert("traceparent"@.len() == 11);
        assert("tracestate"@.len() == 10);
        let traced = trace_contents(entries)->Ok_0;
        assert(contents.contains_key(name) <==> traced.contains_key(name));
        if traced.contains_key(name) {
            assert(contents[name] == traced[name]);
            lemma_trace_key_comes_from_entry(entries, name);
            let i = choose|i: int|
                0 <= i < entries.len() && crate::text::eq_ignore_case(
                    (#[trigger] entries[i]).0,
                    name,
                );
            assert(crate::text::eq_ignore_case(given[i].0@, name));
        }
        if exists|i: int|
            0 <= i < given.len() && crate::text::eq_ignore_case((#[trigger] given[i]).0@, name) {
            let i = choose|i: int|
                0 <= i < given.len() && crate::text::eq_ignore_case((#[trigger] given[i]).0@, name);
            let last = lemma_last_of_name(entries, name, i);
            lemma_trace_value(entries, name, last);
        }
        assert forall|i: int|
            0 <= i < given.len() && crate::text::eq_ignore_case((#[trigger] given[i]).0@, name) && (
            forall|j: int|
                i < j < given.len() ==> !crate::text::eq_ignore_case(
                    (#[trigger] given[j]).0@,
                    name,
                )) implies contents[name] == seq![vstd::utf8::encode_utf8(given[i].1@)] by {
            assert(entries[i] == (given[i].0@, given[i].1@));
            assert forall|j: int| i < j < entries.len() implies !crate::text::eq_ignore_case(
                (#[trigger] entries[j]).0,
                name,
            ) by {
                assert(entries[j].0 == given[j].0@);
            }
            lemma_trace_value(entries, name, i);
        }
    }
}

proof fn lemma_last_of_name(
    entries: Seq<(Seq<char>, Seq<char>)>,
    name: Seq<char>,
    from: int,
) -> (last: int)
    requires
        0 <= from < entries.len(),
        crate::text::eq_ignore_case(entries[from].0, name),
    ensures
        from <= last < entries.len(),
        crate::text::eq_ignore_case(entries[last].0, name),
        forall|j: int|
            last < j < entries.len() ==> !crate::text::eq_ignore_case(
                (#[trigger] entries[j]).0,
                name,
            ),
    decreases entries.len() - from,
{
    if exists|j: int|
        from < j < entries.len() && crate::text::eq_ignore_case((#[trigger] entries[j]).0, name) {
        let j = choose|j: int|
            from < j < entries.len() && crate::text::eq_ignore_case(
                (#[trigger] entries[j]).0,
                name,
            );
        lemma_last_of_name(entries, name, j)
    } else {
        from
    }
}

/// A call carries the idempotency key that it was given, as it is, unless the operator has
/// configured one; and none where it was given none.
pub proof fn law_idempotency_key_is_sent(
    request_headers: &[(String, String)],
    idempotency_key: Option<&str>,
    operator_has_idempotency_key: bool,
    map: reqwest::header::HeaderMap,
)
    requires
        call_ensures(
            build_per_call_headers,
            (request_headers, idempotency_key, operator_has_idempotency_key),
            Ok(map),
        ),
    ensures
        ({
            let contents = crate::headers::header_contents(map);
            &&& contents.contains_key("idempotency-key"@) <==> idempotency_key is Some
                && !operator_has_idempotency_key
            &&& contents.contains_key("idempotency-key"@) ==> contents["idempotency-key"@] == seq![
                vstd::utf8::encode_utf8(idempotency_key->Some_0@),
            ]
        }),
{
    law_idempotency_key_yields_to_the_operator(
        crate::types::pairs_model(request_headers@),
        crate::text::optional_str(idempotency_key),
        operator_has_idempotency_key,
    );
}

/// The headers of a call fail exactly where a trace header of the request has a bad name or
/// value, or where the idempotency key that would be sent has a bad value.
pub proof fn law_per_call_headers_fail_on_bad_headers(
    request_headers: &[(String, String)],
    idempotency_key: Option<&str>,
    operator_has_idempotency_key: bool,
    result: Result<reqwest::header::HeaderMap, String>,
)
    requires
        call_ensures(
            build_per_call_headers,
            (request_headers, idempotency_key, operator_has_idempotency_key),
            result,
        ),
    ensures
        result is Err <==> {
            ||| exists|i: int|
                0 <= i < request_headers@.len() && is_trace_header(
                    (#[trigger] request_headers@[i]).0@,
                ) && !(crate::headers::is_header_name(request_headers@[i].0@)
                    && crate::headers::is_header_value(request_headers@[i].1@))
            ||| idempotency_key is Some && !operator_has_idempotency_key
                && !crate::headers::is_header_value(idempotency_key->Some_0@)
        },
{
    let entries = crate::types::pairs_model(request_headers@);
    lemma_trace_contents_fail(entries);
    assert forall|i: int| 0 <= i < entries.len() implies #[trigger] entries[i] == (
        request_headers@[i].0@,
        request_headers@[i].1@,
    ) by {}
    if trace_contents(entries) is Err {
        let i = choose|i: int|
            0 <= i < entries.len() && is_trace_header((#[trigger] entries[i]).0) && !(
            crate::headers::is_header_name(entries[i].0) && crate::headers::is_header_value(
                entries[i].1,
            ));
        assert(is_trace_header(request_headers@[i].0@));
    }
    if exists|i: int|
        0 <= i < request_headers@.len() && is_trace_header((#[trigger] request_headers@[i]).0@)
            && !(crate::headers::is_header_name(request_headers@[i].0@)
            && crate::headers::is_header_value(request_headers@[i].1@)) {
        let i = choose|i: int|
            0 <= i < request_headers@.len() && is_trace_header((#[trigger] request_headers@[i]).0@)
                && !(crate::headers::is_header_name(request_headers@[i].0@)
                && crate::headers::is_header_value(request_headers@[i].1@));
        assert(is_trace_header(entries[i].0));
    }
}

proof fn lemma_trace_contents_fail(entries: Seq<(Seq<char>, Seq<char>)>)
    ensures
        trace_contents(entries) is Err <==> exists|i: int|
            0 <= i < entries.len() && is_trace_header((#[trigger] entries[i]).0) && !(
            crate::headers::is_header_name(entries[i].0) && crate::headers::is_header_value(
                entries[i].1,
            )),
    decreases entries.len(),
{
    if entries.len() > 0 {
        let shorter = entries.drop_last();
        lemma_trace_contents_fail(shorter);
        if trace_contents(shorter) is Err {
            let i = choose|i: int|
                0 <= i < shorter.len() && is_trace_header((#[trigger] shorter[i]).0) && !(
                crate::headers::is_header_name(shorter[i].0) && crate::headers::is_header_value(
                    shorter[i].1,
                ));
            assert(entries[i] == shorter[i]);
        } else if trace_contents(entries) is Err {
            assert(entries[entries.len() - 1] == entries.last());
        } else {
            assert forall|i: int| 0 <= i < entries.len() implies !is_trace_header(
                (#[trigger] entries[i]).0,
            ) || (crate::headers::is_header_name(entries[i].0) && crate::headers::is_header_value(
                entries[i].1,
            )) by {
                if i < shorter.len() {
                    assert(entries[i] == shorter[i]);
                }
            }
        }
    }
}

/// A header of a request counts as a trace header exactly where its name, white space
/// around it aside, is `traceparent` or `tracestate` in any case.
pub proof fn law_trace_header_names(name: Seq<char>)
    ensures
        is_trace_header(name) <==> crate::text::eq_ignore_case(
            crate::text::trim(name),
            "traceparent"@,
        ) || crate::text::eq_ignore_case(crate::text::trim(name), "tracestate"@),
{
    lemma_trace_words();
}

/// The names that an operator may never set.
pub open spec fn reserved_names() -> Seq<Seq<char>> {
    seq![
        "host"@,
        "connection"@,
        "content-length"@,
        "forwarded"@,
        "via"@,
        "x-real-ip"@,
        "x-request-id"@,
    ]
}

/// A header is protected exactly where its name, in any case and with white space around it,
/// is one of the reserved names, starts with `x-forwarded-`, or, for a JSON call, is `accept`
/// or `content-type`.
pub proof fn law_protected_names(name: &str, is_json_call: bool, yes: bool)
    requires
        call_ensures(is_protected_request_header, (name, is_json_call), yes),
    ensures
        ({
            let bare = crate::text::trim(name@);
            yes <==> {
                ||| exists|i: int|
                    0 <= i < reserved_names().len() && crate::text::eq_ignore_case(
                        bare,
                        #[trigger] reserved_names()[i],
                    )
                ||| bare.len() >= 12 && crate::text::eq_ignore_case(bare.take(12), "x-forwarded-"@)
                ||| is_json_call && crate::text::eq_ignore_case(bare, "accept"@)
                ||| is_json_call && crate::text::eq_ignore_case(bare, "content-type"@)
            }
        }),
{
    let bare = crate::text::trim(name@);
    let lower = crate::text::lowercase(bare);
    let names = reserved_names();
    reveal_strlit("host");
    reveal_strlit("connection");
    reveal_strlit("content-length");
    reveal_strlit("forwarded");
    reveal_strlit("via");
    reveal_strlit("x-real-ip");
    reveal_strlit("x-request-id");
    reveal_strlit("x-forwarded-");
    reveal_strlit("accept");
    reveal_strlit("content-type");
    assert(crate::text::lowercase("host"@) =~= "host"@);
    assert(crate::text::lowercase("connection"@) =~= "connection"@);
    assert(crate::text::lowercase("content-length"@) =~= "content-length"@);
    assert(crate::text::lowercase("forwarded"@) =~= "forwarded"@);
    assert(crate::text::lowercase("via"@) =~= "via"@);
    assert(crate::text::lowercase("x-real-ip"@) =~= "x-real-ip"@);
    assert(crate::text::lowercase("x-request-id"@) =~= "x-request-id"@);
    assert(crate::text::lowercase("x-forwarded-"@) =~= "x-forwarded-"@);
    assert(crate::text::lowercase("accept"@) =~= "accept"@);
    assert(crate::text::lowercase("content-type"@) =~= "content-type"@);
    assert(names[0] == "host"@ && names[1] == "connection"@ && names[2] == "content-length"@
        && names[3] == "forwarded"@ && names[4] == "via"@ && names[5] == "x-real-ip"@ && names[6]
        == "x-request-id"@);
    if bare.len() >= 12 {
        assert(crate::text::lowercase(bare.take(12)) =~= lower.take(12));
        assert(lower.take(12) =~= lower.subrange(0, 12));
    }
    if exists|i: int|
        0 <= i < names.len() && crate::text::eq_ignore_case(bare, #[trigger] names[i]) {
        let i = choose|i: int|
            0 <= i < names.len() && crate::text::eq_ignore_case(bare, #[trigger] names[i]);
    }
}

/// Every default header comes from the operator: under its name stands the value of a header
/// that the operator wrote with that name, in some case.
pub proof fn law_default_headers_come_from_the_operator(
    entries: Seq<(Seq<char>, Seq<char>)>,
    is_json_call: bool,
    key: Seq<char>,
)
    requires
        default_contents(entries, is_json_call) is Ok,
        default_contents(entries, is_json_call)->Ok_0.contains_key(key),
    ensures
        exists|i: int|
            {
                &&& 0 <= i < entries.len()
                &&& crate::text::lowercase((#[trigger] entries[i]).0) == key
                &&& default_contents(entries, is_json_call)->Ok_0[key] == seq![
                    vstd::utf8::encode_utf8(entries[i].1),
                ]
            },
    decreases entries.len(),
{
    let shorter = entries.drop_last();
    let last = entries.last();
    if !is_protected(last.0, is_json_call) && crate::text::lowercase(last.0) == key {
        assert(entries[entries.len() - 1] == last);
    } else {
        law_default_headers_come_from_the_operator(shorter, is_json_call, key);
        let i = choose|i: int|
            {
                &&& 0 <= i < shorter.len()
                &&& crate::text::lowercase((#[trigger] shorter[i]).0) == key
                &&& default_contents(shorter, is_json_call)->Ok_0[key] == seq![
                    vstd::utf8::encode_utf8(shorter[i].1),
                ]
            };
        assert(entries[i] == shorter[i]);
    }
}

/// A header whose name the operator wrote once, in whatever case, is among the default headers
/// of a client exactly where it is not protected, and then with its value.
pub proof fn law_client_gets_the_default_headers(
    headers: &HeaderTable,
    is_json_call: bool,
    result: Result<reqwest::header::HeaderMap, String>,
    i: int,
)
    requires
        call_ensures(build_default_headers, (headers, is_json_call), result),
        result is Ok,
        0 <= i < headers@.len(),
        forall|j: int|
            0 <= j < headers@.len() && j != i ==> !crate::text::eq_ignore_case(
                (#[trigger] headers@[j]).0,
                headers@[i].0,
            ),
    ensures
        ({
            let contents = crate::headers::header_contents(result->Ok_0);
            let key = crate::text::lowercase(headers@[i].0);
            &&& contents.contains_key(key) <==> !is_protected(headers@[i].0, is_json_call)
            &&& contents.contains_key(key) ==> contents[key] == seq![
                vstd::utf8::encode_utf8(headers@[i].1),
            ]
        }),
{
    let entries = headers@;
    let key = crate::text::lowercase(entries[i].0);
    let contents = default_contents(entries, is_json_call)->Ok_0;
    if !is_protected(entries[i].0, is_json_call) {
        law_default_headers_are_complete(entries, is_json_call, i);
    } else if contents.contains_key(key) {
        law_default_headers_come_from_the_operator(entries, is_json_call, key);
        let j = choose|j: int|
            {
                &&& 0 <= j < entries.len()
                &&& crate::text::lowercase((#[trigger] entries[j]).0) == key
                &&& contents[key] == seq![vstd::utf8::encode_utf8(entries[j].1)]
            };
        assert(crate::text::eq_ignore_case(entries[j].0, entries[i].0));
        assert(j == i);
        lemma_protected_is_left_out(entries, is_json_call, i);
    }
}

proof fn lemma_protected_is_left_out(
    entries: Seq<(Seq<char>, Seq<char>)>,
    is_json_call: bool,
    i: int,
)
    requires
        default_contents(entries, is_json_call) is Ok,
        0 <= i < entries.len(),
        is_protected(entries[i].0, is_json_call),
        forall|j: int|
            0 <= j < entries.len() && j != i ==> !crate::text::eq_ignore_case(
                (#[trigger] entries[j]).0,
                entries[i].0,
            ),
    ensures
        !default_contents(entries, is_json_call)->Ok_0.contains_key(
            crate::text::lowercase(entries[i].0),
        ),
    decreases entries.len(),
{
    let shorter = entries.drop_last();
    let key = crate::text::lowercase(entries[i].0);
    if i < shorter.len() {
        assert(shorter[i] == entries[i]);
        assert forall|j: int|
            0 <= j < shorter.len() && j != i implies !crate::text::eq_ignore_case(
            (#[trigger] shorter[j]).0,
            shorter[i].0,
        ) by {
            assert(shorter[j] == entries[j]);
        }
        lemma_protected_is_left_out(shorter, is_json_call, i);
        assert(!crate::text::eq_ignore_case(entries[entries.len() - 1].0, entries[i].0));
    } else if default_contents(shorter, is_json_call)->Ok_0.contains_key(key) {
        law_default_headers_come_from_the_operator(shorter, is_json_call, key);
        let j = choose|j: int|
            {
                &&& 0 <= j < shorter.len()
                &&& crate::text::lowercase((#[trigger] shorter[j]).0) == key
                &&& default_contents(shorter, is_json_call)->Ok_0[key] == seq![
                    vstd::utf8::encode_utf8(shorter[j].1),
                ]
            };
        assert(entries[j] == shorter[j]);
        assert(crate::text::eq_ignore_case(entries[j].0, entries[i].0));
    }
}

/// A `retry-after` value is a number of seconds: white space around it and a plus sign before
/// it do not matter, and the delay is that many thousand milliseconds. A delay that does not
/// fit is none.
pub proof fn law_retry_after_counts_seconds(
    front: Seq<char>,
    seconds: u64,
    back: Seq<char>,
    signed: bool,
)
    requires
        forall|i: int|
            0 <= i < front.len() ==> crate::text::is_white_space(#[trigger] front[i]),
        forall|i: int| 0 <= i < back.len() ==> crate::text::is_white_space(#[trigger] back[i]),
    ensures
        ({
            let digits = crate::text::decimal(seconds as nat);
            let number = if signed {
                seq!['+'] + digits
            } else {
                digits
            };
            let delay = retry_after_delay(front + number + back);
            &&& seconds as int * 1000 <= u64::MAX ==> delay is Some && delay->Some_0 == seconds
                as int * 1000
            &&& seconds as int * 1000 > u64::MAX ==> delay is None
        }),
{
    let digits = crate::text::decimal(seconds as nat);
    let number = if signed {
        seq!['+'] + digits
    } else {
        digits
    };
    crate::text::law_decimal_reads_back(seconds as nat);
    crate::text::law_unsigned_reads_decimal(seconds);
    assert(0x30 <= digits[0] as int <= 0x39);
    assert(0x30 <= digits[digits.len() - 1] as int <= 0x39);
    assert(number.last() == digits[digits.len() - 1]);
    crate::text::law_trim_cuts_white_space_alone(front, number, back);
}

/// What is no number of seconds asks for no delay: nothing, a sign alone, a date, a fraction
/// or a negative number.
pub proof fn law_retry_after_takes_numbers_alone(
    front: Seq<char>,
    core: Seq<char>,
    back: Seq<char>,
)
    requires
        forall|i: int|
            0 <= i < front.len() ==> crate::text::is_white_space(#[trigger] front[i]),
        forall|i: int| 0 <= i < back.len() ==> crate::text::is_white_space(#[trigger] back[i]),
        core.len() > 0 ==> !crate::text::is_white_space(core.first())
            && !crate::text::is_white_space(core.last()),
        core.len() == 0 || core == seq!['+'] || exists|i: int|
            0 <= i < core.len() && !(0x30 <= (#[trigger] core[i]) as int <= 0x39) && !(i == 0
                && core[i] == '+'),
    ensures
        retry_after_delay(front + core + back) is None,
{
    crate::text::law_trim_cuts_white_space_alone(front, core, back);
    crate::text::law_unsigned_takes_digits_alone(core);
}

/// A delay that is read is that of the number in the value, in thousands.
pub proof fn law_retry_after_is_read(value: &str, delay: Option<u64>)
    requires
        call_ensures(parse_retry_after_ms, (value,), delay),
    ensures
        delay == retry_after_delay(value@),
        delay matches Some(millis) ==> {
            &&& crate::text::unsigned(crate::text::trim(value@)) matches Some(seconds)
            &&& millis == seconds as int * 1000
        },
{
}

/// A list holds a word exactly where one of its parts is the word, in any case and with white
/// space around it.
pub proof fn law_list_holds_its_parts(parts: Seq<Seq<char>>, separator: char, word: Seq<char>)
    requires
        parts.len() > 0,
        forall|i: int| 0 <= i < parts.len() ==> !(#[trigger] parts[i]).contains(separator),
    ensures
        lists(crate::text::joined(parts, seq![separator]), separator, word) <==> exists|i: int|
            0 <= i < parts.len() && crate::text::eq_ignore_case(
                crate::text::trim(#[trigger] parts[i]),
                word,
            ),
{
    crate::text::law_split_undoes_join(parts, separator);
}

/// A response arrives in pieces over time exactly where it is sent chunked (its transfer
/// encoding lists `chunked`), where it is a stream of server-sent events (its media type is
/// `text/event-stream`), or where it does not say how long it is.
pub proof fn law_streaming_responses(
    transfer_encoding: &Option<Vec<u8>>,
    content_type: &Option<Vec<u8>>,
    content_length: &Option<Vec<u8>>,
    yes: bool,
)
    requires
        call_ensures(streams, (transfer_encoding, content_type, content_length), yes),
    ensures
        ({
            let coding = transfer_encoding->Some_0@;
            let media = content_type->Some_0@;
            let chunked = transfer_encoding is Some && crate::headers::visible_text(coding) is Some
                && lists(crate::headers::visible_text(coding)->Some_0, ',', "chunked"@);
            let events = content_type is Some && crate::headers::visible_text(media) is Some
                && crate::text::eq_ignore_case(
                crate::text::trim(
                    crate::text::before(crate::headers::visible_text(media)->Some_0, ';'),
                ),
                "text/event-stream"@,
            );
            yes <==> chunked || events || content_length is None
        }),
{
    reveal_strlit("chunked");
    reveal_strlit("text/event-stream");
    lemma_empty_lists_nothing("chunked"@);
    let empty = Seq::<char>::empty();
    assert(crate::text::before(empty, ';') =~= empty);
    assert(crate::text::trim(empty) =~= empty);
    assert(crate::text::lowercase(empty).len() == 0);
    assert(crate::text::lowercase("text/event-stream"@).len() == 17);
}

proof fn lemma_empty_lists_nothing(word: Seq<char>)
    requires
        word.len() > 0,
    ensures
        !lists(Seq::empty(), ',', word),
{
    let empty = Seq::<char>::empty();
    let parts = crate::text::split(empty, ',');
    assert(parts.len() == 1 && parts[0] == empty);
    assert(crate::text::trim(empty) =~= empty);
    assert(crate::text::lowercase(empty).len() == 0);
    assert(crate::text::lowercase(word).len() == word.len());
}

/// What is read of the headers of a response: its content type as it was sent, the delay that
/// its `retry-after` asks for, and whether it arrives in pieces.
pub proof fn law_response_headers_are_told(
    headers: &reqwest::header::HeaderMap,
    meta: ResponseMeta,
    streaming: bool,
)
    requires
        call_ensures(read_response_meta, (headers,), meta),
        call_ensures(response_is_streaming, (headers,), streaming),
    ensures
        ({
            let contents = crate::headers::header_contents(*headers);
            let sent = contents["content-type"@][0];
            let asked = contents["retry-after"@][0];
            &&& meta.content_type is Some <==> contents.contains_key("content-type"@)
                && crate::headers::visible_text(sent) is Some
            &&& meta.content_type matches Some(text) ==> crate::headers::visible_text(sent) == Some(
                text@,
            )
            &&& meta.retry_after_ms == (if contents.contains_key("retry-after"@)
                && crate::headers::visible_text(asked) is Some {
                retry_after_delay(crate::headers::visible_text(asked)->Some_0)
            } else {
                None
            })
            &&& meta.is_streaming == streaming
            &&& !contents.contains_key("content-length"@) ==> streaming
        }),
{
    reveal_strlit("content-type");
    reveal_strlit("retry-after");
    reveal_strlit("content-length");
    reveal_strlit("transfer-encoding");
    assert(crate::text::lowercase("content-type"@) =~= "content-type"@);
    assert(crate::text::lowercase("retry-after"@) =~= "retry-after"@);
    assert(crate::text::lowercase("content-length"@) =~= "content-length"@);
}

/// Whether a response arrives in pieces is decided by its own three headers, each by its
/// first value.
pub proof fn law_streaming_is_read_from_the_headers(
    headers: &reqwest::header::HeaderMap,
    streaming: bool,
    transfer_encoding: &Option<Vec<u8>>,
    content_type: &Option<Vec<u8>>,
    content_length: &Option<Vec<u8>>,
    yes: bool,
)
    requires
        call_ensures(response_is_streaming, (headers,), streaming),
        call_ensures(streams, (transfer_encoding, content_type, content_length), yes),
        ({
            let contents = crate::headers::header_contents(*headers);
            &&& transfer_encoding is Some <==> contents.contains_key("transfer-encoding"@)
            &&& transfer_encoding is Some ==> transfer_encoding->Some_0@
                == contents["transfer-encoding"@][0]
            &&& content_type is Some <==> contents.contains_key("content-type"@)
            &&& content_type is Some ==> content_type->Some_0@ == contents["content-type"@][0]
            &&& content_length is Some <==> contents.contains_key("content-length"@)
            &&& content_length is Some ==> content_length->Some_0@ == contents["content-length"@][0]
        }),
    ensures
        streaming == yes,
{
    reveal_strlit("content-type");
    reveal_strlit("content-length");
    reveal_strlit("transfer-encoding");
    assert(crate::text::lowercase("content-type"@) =~= "content-type"@);
    assert(crate::text::lowercase("content-length"@) =~= "content-length"@);
    assert(crate::text::lowercase("transfer-encoding"@) =~= "transfer-encoding"@);
}

/// A summary holds what it was made of, each part as it was.
pub proof fn law_summary_holds_its_parts(
    status: u16,
    content_type: Option<String>,
    retry_after_ms: Option<u64>,
    elapsed_ms: u128,
    body: String,
    truncated: bool,
    summary: HttpResponseSummary,
)
    requires
        call_ensures(
            finalize_http_summary,
            (status, content_type, retry_after_ms, elapsed_ms, body, truncated),
            summary,
        ),
    ensures
        summary.status_code == status,
        summary.content_type is Some <==> content_type is Some,
        content_type matches Some(text) ==> summary.content_type->Some_0@ == text@,
        summary.retry_after_ms == retry_after_ms,
        summary.body@ == body@,
        summary.body_truncated == truncated,
        summary.duration_ms == elapsed_ms,
{
}

/// The message for a request that got no response tells what went wrong.
pub proof fn law_request_error_tells_the_cause(error: &str, message: String)
    requires
        call_ensures(request_error, (error,), message),
    ensures
        message@ == "HTTP request failed: "@ + error@,
{
}

/// The first header of the operator that cannot be sent is the one that is told about, by its
/// name: one that is not protected and has a bad name, or else a bad value.
pub proof fn law_first_bad_default_header_is_told(
    headers: &HeaderTable,
    is_json_call: bool,
    result: Result<reqwest::header::HeaderMap, String>,
    i: int,
)
    requires
        call_ensures(build_default_headers, (headers, is_json_call), result),
        0 <= i < headers@.len(),
        !is_protected(headers@[i].0, is_json_call),
        !crate::headers::is_header_name(headers@[i].0) || !crate::headers::is_header_value(
            headers@[i].1,
        ),
        forall|j: int|
            0 <= j < i ==> is_protected((#[trigger] headers@[j]).0, is_json_call) || (
            crate::headers::is_header_name(headers@[j].0) && crate::headers::is_header_value(
                headers@[j].1,
            )),
    ensures
        result matches Err(message) && message@ == (if !crate::headers::is_header_name(
            headers@[i].0,
        ) {
            "invalid header name"@ + " '"@ + headers@[i].0 + "': "@ + "invalid HTTP header name"@
        } else {
            "invalid header value for"@ + " '"@ + headers@[i].0 + "': "@
                + "failed to parse header value"@
        }),
{
    let entries = headers@;
    let front = entries.take(i);
    assert forall|j: int| 0 <= j < front.len() implies is_protected(
        (#[trigger] front[j]).0,
        is_json_call,
    ) || (crate::headers::is_header_name(front[j].0) && crate::headers::is_header_value(
        front[j].1,
    )) by {
        assert(front[j] == entries[j]);
    }
    law_default_headers_fail_on_bad_headers(front, is_json_call);
    assert(entries.take(i + 1).drop_last() =~= front);
    assert(entries.take(i + 1).last() == entries[i]);
    lemma_default_contents_error(entries, is_json_call, i + 1);
}

/// The first trace header of a request that cannot be sent is the one that is told about, by its
/// name; a bad idempotency key is told about where the trace headers are in order.
pub proof fn law_first_bad_call_header_is_told(
    request_headers: &[(String, String)],
    idempotency_key: Option<&str>,
    operator_has_idempotency_key: bool,
    result: Result<reqwest::header::HeaderMap, String>,
    i: int,
)
    requires
        call_ensures(
            build_per_call_headers,
            (request_headers, idempotency_key, operator_has_idempotency_key),
            result,
        ),
        0 <= i <= request_headers@.len(),
        forall|j: int|
            0 <= j < i ==> !is_trace_header((#[trigger] request_headers@[j]).0@) || (
            crate::headers::is_header_name(request_headers@[j].0@)
                && crate::headers::is_header_value(request_headers@[j].1@)),
    ensures
        i < request_headers@.len() && is_trace_header(request_headers@[i].0@)
            && !crate::headers::is_header_name(request_headers@[i].0@) ==> result is Err
            && result->Err_0@ == "invalid trace header"@ + " '"@ + request_headers@[i].0@ + "': "@
            + "invalid HTTP header name"@,
        i < request_headers@.len() && is_trace_header(request_headers@[i].0@)
            && crate::headers::is_header_name(request_headers@[i].0@)
            && !crate::headers::is_header_value(request_headers@[i].1@) ==> result is Err
            && result->Err_0@ == "invalid trace header value for"@ + " '"@
            + request_headers@[i].0@ + "': "@ + "failed to parse header value"@,
        i == request_headers@.len() && result is Err ==> result->Err_0@
            == "invalid Idempotency-Key value: "@ + "failed to parse header value"@,
{
    let entries = crate::types::pairs_model(request_headers@);
    let front = entries.take(i);
    assert forall|j: int| 0 <= j < front.len() implies !is_trace_header((#[trigger] front[j]).0)
        || (crate::headers::is_header_name(front[j].0) && crate::headers::is_header_value(
        front[j].1,
    )) by {
        assert(front[j] == (request_headers@[j].0@, request_headers@[j].1@));
    }
    lemma_trace_contents_fail(front);
    if i < entries.len() {
        assert(entries[i] == (request_headers@[i].0@, request_headers@[i].1@));
        assert(entries.take(i + 1).drop_last() =~= front);
        assert(entries.take(i + 1).last() == entries[i]);
        if trace_contents(entries.take(i + 1)) is Err {
            lemma_trace_contents_error(entries, i + 1);
        }
    } else {
        assert(front =~= entries);
    }
}

} // verus!

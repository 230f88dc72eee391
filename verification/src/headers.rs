//! Header maps: what the `http` crate's map of headers holds, and which names
//! and values it takes.

use vstd::prelude::*;

verus! {

/// The header map that `reqwest` takes and hands out, for values of type `T`.
#[verifier::external_type_specification]
#[verifier::external_body]
#[verifier::reject_recursive_types(T)]
pub struct ExHeaderMap<T>(reqwest::header::HeaderMap<T>);

/// A header value, kept in a map without being looked at.
#[verifier::external_type_specification]
#[verifier::external_body]
pub struct ExHeaderValue(reqwest::header::HeaderValue);

/// What a header map holds: for each lower-case name the bytes of its values,
/// one or more, in the order in which they came.
pub type HeaderContents = Map<Seq<char>, Seq<Seq<u8>>>;

/// The contents of a header map.
pub uninterp spec fn header_contents(map: reqwest::header::HeaderMap) -> HeaderContents;

/// The most names that a map may hold before one more is inserted. A map grows
/// to 32768 slots and no further, and where names crowd together in it an insert
/// asks for more slots as soon as a fifth of them is taken.
pub const MAX_NAMES_BEFORE_INSERT: usize = 6553;

/// The characters of a header name: the `tchar` of RFC 9110.
pub open spec fn is_name_char(c: char) -> bool {
    ||| 'a' <= c <= 'z'
    ||| 'A' <= c <= 'Z'
    ||| '0' <= c <= '9'
    ||| c == '!'
    ||| c == '#'
    ||| c == '$'
    ||| c == '%'
    ||| c == '&'
    ||| c == '\''
    ||| c == '*'
    ||| c == '+'
    ||| c == '-'
    ||| c == '.'
    ||| c == '^'
    ||| c == '_'
    ||| c == '`'
    ||| c == '|'
    ||| c == '~'
}

/// Whether `name` can be a header name: it is not empty, not longer than 65535
/// characters and has name characters alone.
pub open spec fn is_header_name(name: Seq<char>) -> bool {
    &&& 1 <= name.len() <= 65535
    &&& forall|i: int| 0 <= i < name.len() ==> is_name_char(#[trigger] name[i])
}

/// The characters of a header value: all but the control characters, of which a
/// tab alone is allowed.
pub open spec fn is_value_char(c: char) -> bool {
    c == '\t' || (c >= ' ' && c != '\u{7f}')
}

/// Whether `value` can be a header value.
pub open spec fn is_header_value(value: Seq<char>) -> bool {
    forall|i: int| 0 <= i < value.len() ==> is_value_char(#[trigger] value[i])
}

/// Calls `HeaderMap::new`, which makes a map without headers.
#[verifier::external_body]
pub(crate) fn empty_headers() -> (map: reqwest::header::HeaderMap)
    ensures
        header_contents(map) == HeaderContents::empty(),
{
    reqwest::header::HeaderMap::new()
}

/// Calls `HeaderName::from_bytes` on the bytes of `name`, and drops the name that
/// comes back. The call succeeds exactly where [`is_header_name`] holds: a
/// character outside ASCII has no byte that a name may have. The error always
/// says the same.
#[verifier::external_body]
pub(crate) fn check_header_name(name: &str) -> (checked: Result<(), String>)
    ensures
        match checked {
            Ok(_) => is_header_name(name@),
            Err(message) => !is_header_name(name@) && message@ == "invalid HTTP header name"@,
        },
{
    match reqwest::header::HeaderName::from_bytes(name.as_bytes()) {
        Ok(_) => Ok(()),
        Err(error) => Err(error.to_string()),
    }
}

/// Calls `HeaderValue::from_str`, and drops the value that comes back. The call
/// succeeds exactly where [`is_header_value`] holds: every byte of a character
/// outside ASCII is one that a value may have. The error always says the same.
#[verifier::external_body]
pub(crate) fn check_header_value(value: &str) -> (checked: Result<(), String>)
    ensures
        match checked {
            Ok(_) => is_header_value(value@),
            Err(message) => !is_header_value(value@) && message@
                == "failed to parse header value"@,
        },
{
    match reqwest::header::HeaderValue::from_str(value) {
        Ok(_) => Ok(()),
        Err(error) => Err(error.to_string()),
    }
}

/// Calls `HeaderMap::insert`, for which it makes the name with
/// `HeaderName::from_bytes` and the value with `HeaderValue::from_str`. The map
/// then has this value alone under the name in lower case, and all else as
/// before. A map with too many names would panic; see
/// [`MAX_NAMES_BEFORE_INSERT`].
#[verifier::external_body]
pub(crate) fn insert_header(map: &mut reqwest::header::HeaderMap, name: &str, value: &str)
    requires
        is_header_name(name@),
        is_header_value(value@),
        header_contents(*old(map)).dom().finite(),
        header_contents(*old(map)).len() <= MAX_NAMES_BEFORE_INSERT,
    ensures
        header_contents(*final(map)) == header_contents(*old(map)).insert(
            crate::text::lowercase(name@),
            seq![vstd::utf8::encode_utf8(value@)],
        ),
{
    map.insert(
        reqwest::header::HeaderName::from_bytes(name.as_bytes()).expect("a checked name"),
        reqwest::header::HeaderValue::from_str(value).expect("a checked value"),
    );
}

/// The first value of a header, by its name in any case.
pub open spec fn first_value(contents: HeaderContents, name: Seq<char>) -> Option<Seq<u8>> {
    let key = crate::text::lowercase(name);
    if contents.contains_key(key) {
        Some(contents[key].first())
    } else {
        None
    }
}

/// The view of optional bytes.
pub open spec fn optional_bytes(bytes: Option<Vec<u8>>) -> Option<Seq<u8>> {
    match bytes {
        Some(bytes) => Some(bytes@),
        None => None,
    }
}

/// Calls `HeaderMap::get`, and copies the bytes of the value. Header names are
/// looked up without regard to case, and the first value of a name comes back.
#[verifier::external_body]
pub(crate) fn get_header(map: &reqwest::header::HeaderMap, name: &str) -> (value: Option<Vec<u8>>)
    requires
        is_header_name(name@),
    ensures
        optional_bytes(value) == first_value(header_contents(*map), name@),
{
    map.get(name).map(|value| value.as_bytes().to_vec())
}

/// Whether a byte of a header value is a visible ASCII character, a space or a
/// tab.
pub open spec fn is_visible(byte: u8) -> bool {
    32 <= byte <= 126 || byte == 9
}

/// A header value as text: its characters where all of them are visible.
pub open spec fn visible_text(bytes: Seq<u8>) -> Option<Seq<char>> {
    if forall|i: int| 0 <= i < bytes.len() ==> is_visible(#[trigger] bytes[i]) {
        Some(Seq::new(bytes.len(), |i: int| bytes[i] as char))
    } else {
        None
    }
}

/// Computes [`visible_text`].
pub fn header_text(bytes: &[u8]) -> (text: Option<Vec<char>>)
    ensures
        match text {
            Some(chars) => visible_text(bytes@) == Some(chars@),
            None => visible_text(bytes@) is None,
        },
{
    let mut chars: Vec<char> = Vec::new();
    let mut i: usize = 0;
    while i < bytes.len()
        invariant
            i <= bytes@.len(),
            chars@.len() == i,
            forall|j: int| 0 <= j < i ==> is_visible(#[trigger] bytes@[j]),
            forall|j: int| 0 <= j < i ==> #[trigger] chars@[j] == bytes@[j] as char,
        decreases bytes@.len() - i,
    {
        let byte = bytes[i];
        if !((32 <= byte && byte <= 126) || byte == 9) {
            assert(!is_visible(bytes@[i as int]));
            return None;
        }
        chars.push(byte as char);
        i = i + 1;
    }
    assert(chars@ =~= Seq::new(bytes@.len(), |i: int| bytes@[i] as char));
    Some(chars)
}

/// What a message says about a header: `label`, the name in quotes, the error.
pub open spec fn message_about(label: Seq<char>, name: Seq<char>, error: Seq<char>) -> Seq<char> {
    label + " '"@ + name + "': "@ + error
}

/// Computes [`message_about`].
pub fn message_text(label: &str, name: &str, error: &str) -> (message: String)
    ensures
        message@ == message_about(label@, name@, error@),
{
    let mut message = label.to_owned();
    message.append(" '");
    message.append(name);
    message.append("': ");
    message.append(error);
    message
}

/// The contents after one more header is set, or what is wrong with it. A bad
/// name is found before a bad value.
pub open spec fn header_set(
    contents: HeaderContents,
    name: Seq<char>,
    value: Seq<char>,
    name_label: Seq<char>,
    value_label: Seq<char>,
) -> Result<HeaderContents, Seq<char>> {
    if !is_header_name(name) {
        Err(message_about(name_label, name, "invalid HTTP header name"@))
    } else if !is_header_value(value) {
        Err(message_about(value_label, name, "failed to parse header value"@))
    } else {
        Ok(
            contents.insert(
                crate::text::lowercase(name),
                seq![vstd::utf8::encode_utf8(value)],
            ),
        )
    }
}

/// Sets a header as [`header_set`] says; where that fails, the map stays as it
/// was.
pub(crate) fn put_header(
    map: &mut reqwest::header::HeaderMap,
    name: &str,
    value: &str,
    name_label: &str,
    value_label: &str,
) -> (done: Result<(), String>)
    requires
        header_contents(*old(map)).dom().finite(),
        header_contents(*old(map)).len() <= MAX_NAMES_BEFORE_INSERT,
    ensures
        match header_set(
            header_contents(*old(map)),
            name@,
            value@,
            name_label@,
            value_label@,
        ) {
            Ok(contents) => done is Ok && header_contents(*final(map)) == contents,
            Err(message) => done matches Err(text) && text@ == message && *final(map)
                == *old(map),
        },
{
    match check_header_name(name) {
        Err(error) => Err(message_text(name_label, name, error.as_str())),
        Ok(_) => match check_header_value(value) {
            Err(error) => Err(message_text(value_label, name, error.as_str())),
            Ok(_) => {
                insert_header(map, name, value);
                Ok(())
            },
        },
    }
}

/// A header name has no white space around it, and stays a header name in lower
/// case.
pub proof fn lemma_header_name(name: Seq<char>)
    requires
        is_header_name(name),
    ensures
        crate::text::trim(name) == name,
        is_header_name(crate::text::lowercase(name)),
        crate::text::trim(crate::text::lowercase(name)) == crate::text::lowercase(name),
{
    let lower = crate::text::lowercase(name);
    assert forall|i: int| 0 <= i < name.len() implies !crate::text::is_white_space(
        #[trigger] name[i],
    ) by {
        assert(is_name_char(name[i]));
    }
    assert forall|i: int| 0 <= i < lower.len() implies is_name_char(#[trigger] lower[i])
        && !crate::text::is_white_space(lower[i]) by {
        assert(is_name_char(name[i]));
        assert(lower[i] == crate::text::lower_char(name[i]));
    }
    crate::text::lemma_trim_nothing(name);
    crate::text::lemma_trim_nothing(lower);
}

/// The value of a header is read as text exactly where each of its bytes is a visible ASCII
/// character, a space or a tab, and then the text is those characters: its UTF-8 bytes are
/// those of the value.
pub proof fn law_header_text_is_the_value(bytes: &[u8], text: Option<Vec<char>>)
    requires
        call_ensures(header_text, (bytes,), text),
    ensures
        text is Some <==> forall|i: int|
            0 <= i < bytes@.len() ==> (0x20 <= #[trigger] bytes@[i] <= 0x7e || bytes@[i] == 0x09),
        text matches Some(chars) ==> {
            &&& chars@.len() == bytes@.len()
            &&& forall|i: int|
                0 <= i < bytes@.len() ==> (#[trigger] chars@[i]) as int == bytes@[i] as int
        },
{
    if text is Some {
        assert forall|i: int| 0 <= i < bytes@.len() implies (0x20 <= #[trigger] bytes@[i] <= 0x7e
            || bytes@[i] == 0x09) by {
            assert(is_visible(bytes@[i]));
        }
    }
}

/// What is set under a name replaces what stood under it, in whatever case the name is
/// written, and leaves every other header as it was.
pub proof fn law_setting_a_header_changes_it_alone(
    contents: HeaderContents,
    name: Seq<char>,
    value: Seq<char>,
    name_label: Seq<char>,
    value_label: Seq<char>,
    other: Seq<char>,
)
    ensures
        ({
            let set = header_set(contents, name, value, name_label, value_label);
            &&& set is Ok <==> is_header_name(name) && is_header_value(value)
            &&& set matches Ok(after) ==> {
                &&& after.contains_key(crate::text::lowercase(name))
                &&& after[crate::text::lowercase(name)] == seq![vstd::utf8::encode_utf8(value)]
                &&& other != crate::text::lowercase(name) ==> (after.contains_key(other)
                    <==> contents.contains_key(other)) && after[other] == contents[other]
            }
            &&& !is_header_name(name) ==> set == Err::<HeaderContents, Seq<char>>(
                name_label + " '"@ + name + "': "@ + "invalid HTTP header name"@,
            )
            &&& is_header_name(name) && !is_header_value(value) ==> set == Err::<
                HeaderContents,
                Seq<char>,
            >(value_label + " '"@ + name + "': "@ + "failed to parse header value"@)
        }),
{
}

/// A header is looked up in any case, and its first value counts.
pub proof fn law_first_value_is_found_in_any_case(
    contents: HeaderContents,
    name: Seq<char>,
    other: Seq<char>,
)
    requires
        crate::text::eq_ignore_case(name, other),
    ensures
        first_value(contents, name) == first_value(contents, other),
        first_value(contents, name) is Some <==> contents.contains_key(
            crate::text::lowercase(name),
        ),
        first_value(contents, name) matches Some(value) ==> value
            == contents[crate::text::lowercase(name)][0],
{
}

} // verus!

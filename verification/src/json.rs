//! JSON values, as far as this crate reads and builds them.
//!
//! [`JsonValue`] holds call arguments and error details. Parsed response
//! bodies stay `serde_json::Value`: nothing here looks inside them.

use crate::text::{decimal_text, join_texts};
use crate::types::sorted_pairs;
use vstd::prelude::*;

verus! {

/// `serde_json::Value`, carried through without being looked at.
#[verifier::external_type_specification]
#[verifier::external_body]
pub struct ExSerdeJsonValue(serde_json::Value);

/// A JSON value.
#[derive(Debug, PartialEq, Eq)]
pub enum JsonValue {
    /// `null`.
    Null,
    /// `true` or `false`.
    Bool(bool),
    /// A number, by its JSON text.
    Number(String),
    /// A string.
    String(String),
    /// An array.
    Array(Vec<JsonValue>),
    /// An object: its entries, in some order.
    Object(Vec<(String, JsonValue)>),
}

/// The mathematical model of a [`JsonValue`].
#[verifier::ext_equal]
pub enum Json {
    /// `null`.
    Null,
    /// `true` or `false`.
    Bool(bool),
    /// A number, by its JSON text.
    Number(Seq<char>),
    /// A string.
    String(Seq<char>),
    /// An array.
    Array(Seq<Json>),
    /// An object: its entries, in some order.
    Object(Seq<(Seq<char>, Json)>),
}

/// The models of the items of an array.
pub open spec fn item_models(items: Seq<JsonValue>) -> Seq<Json>
    decreases items,
{
    Seq::new(
        items.len(),
        |i: int|
            if 0 <= i < items.len() {
                items[i].model()
            } else {
                Json::Null
            },
    )
}

/// The models of the entries of an object.
pub open spec fn entry_models(entries: Seq<(String, JsonValue)>) -> Seq<(Seq<char>, Json)>
    decreases entries,
{
    Seq::new(
        entries.len(),
        |i: int|
            if 0 <= i < entries.len() {
                (entries[i].0@, entries[i].1.model())
            } else {
                (Seq::empty(), Json::Null)
            },
    )
}

impl JsonValue {
    /// The model of this value.
    pub open spec fn model(&self) -> Json
        decreases self,
    {
        match self {
            JsonValue::Null => Json::Null,
            JsonValue::Bool(b) => Json::Bool(*b),
            JsonValue::Number(text) => Json::Number(text@),
            JsonValue::String(text) => Json::String(text@),
            JsonValue::Array(items) => Json::Array(item_models(items@)),
            JsonValue::Object(entries) => Json::Object(entry_models(entries@)),
        }
    }
}

/// The hexadecimal digit for `n`, in lower case.
pub open spec fn hex_digit(n: int) -> char {
    if n < 10 {
        ('0' as int + n) as char
    } else {
        ('a' as int + n - 10) as char
    }
}

/// What is written for one character of a string: a quote, a backslash and the
/// control characters below the space are escaped, all others stand for themselves.
pub open spec fn escaped(c: char) -> Seq<char> {
    if c == '"' || c == '\\' {
        seq!['\\', c]
    } else if c == '\u{8}' {
        seq!['\\', 'b']
    } else if c == '\t' {
        seq!['\\', 't']
    } else if c == '\n' {
        seq!['\\', 'n']
    } else if c == '\u{c}' {
        seq!['\\', 'f']
    } else if c == '\r' {
        seq!['\\', 'r']
    } else if c as int <= 0x1f {
        seq!['\\', 'u', '0', '0', hex_digit(c as int / 16), hex_digit(c as int % 16)]
    } else {
        seq![c]
    }
}

/// The JSON text of a string: its characters, escaped where they have to be,
/// between quotes.
pub open spec fn json_string(text: Seq<char>) -> Seq<char> {
    seq!['"'] + text.map_values(|c: char| escaped(c)).flatten() + seq!['"']
}

/// Calls `serde_json::to_string` on a string. Writing a string into memory has
/// no way to fail, so the result is always text: the one that [`json_string`]
/// gives.
#[verifier::external_body]
fn json_string_text(text: &str) -> (quoted: String)
    ensures
        quoted@ == json_string(text@),
{
    serde_json::to_string(text).expect("a string always has a JSON text")
}

/// The compact JSON text of a value. The members of an object are sorted by their
/// keys.
pub open spec fn json_text(value: Json) -> Seq<char>
    decreases value,
{
    match value {
        Json::Null => "null"@,
        Json::Bool(b) => if b {
            "true"@
        } else {
            "false"@
        },
        Json::Number(text) => text,
        Json::String(text) => json_string(text),
        Json::Array(items) => "["@ + crate::text::joined(item_texts(items), ","@) + "]"@,
        Json::Object(entries) => "{"@ + crate::text::joined(
            member_texts(
                crate::sort::stable_sort(entry_texts(entries), crate::sort::by_first()),
            ),
            ","@,
        ) + "}"@,
    }
}

/// The texts of the items of an array.
pub open spec fn item_texts(items: Seq<Json>) -> Seq<Seq<char>>
    decreases items,
{
    Seq::new(
        items.len(),
        |i: int|
            if 0 <= i < items.len() {
                json_text(items[i])
            } else {
                Seq::empty()
            },
    )
}

/// The keys of an object, each with the text of its value.
pub open spec fn entry_texts(entries: Seq<(Seq<char>, Json)>) -> Seq<(Seq<char>, Seq<char>)>
    decreases entries,
{
    Seq::new(
        entries.len(),
        |i: int|
            if 0 <= i < entries.len() {
                (entries[i].0, json_text(entries[i].1))
            } else {
                (Seq::empty(), Seq::empty())
            },
    )
}

/// The text of one member of an object: its key and the text of its value.
pub open spec fn member_text(member: (Seq<char>, Seq<char>)) -> Seq<char> {
    json_string(member.0) + ":"@ + member.1
}

/// The texts of the members of an object.
pub open spec fn member_texts(members: Seq<(Seq<char>, Seq<char>)>) -> Seq<Seq<char>> {
    members.map_values(|member: (Seq<char>, Seq<char>)| member_text(member))
}

fn members_text(members: &[(String, String)]) -> (text: String)
    ensures
        text@ == crate::text::joined(
            member_texts(
                crate::sort::stable_sort(
                    crate::types::pairs_model(members@),
                    crate::sort::by_first(),
                ),
            ),
            ","@,
        ),
{
    let ordered = sorted_pairs(members);
    let ghost all = member_texts(crate::types::pairs_model(ordered@));
    let mut parts: Vec<String> = Vec::new();
    let mut i: usize = 0;
    while i < ordered.len()
        invariant
            i <= ordered@.len(),
            all == member_texts(crate::types::pairs_model(ordered@)),
            crate::text::texts(parts@) == all.take(i as int),
        decreases ordered@.len() - i,
    {
        let member = &ordered[i];
        let ghost so_far = crate::text::texts(parts@);
        let mut part = json_string_text(member.0.as_str());
        part.append(":");
        part.append(member.1.as_str());
        assert(part@ == all[i as int]);
        parts.push(part);
        assert(crate::text::texts(parts@) =~= so_far.push(all[i as int]));
        assert(all.take(i + 1) =~= so_far.push(all[i as int]));
        i = i + 1;
    }
    assert(all.take(i as int) =~= all);
    join_texts(&parts, ",")
}

impl JsonValue {
    /// The number `n`.
    pub fn number(n: u64) -> (value: JsonValue)
        ensures
            value.model() == Json::Number(crate::text::decimal(n as nat)),
    {
        JsonValue::Number(decimal_text(n))
    }

    /// A copy of this value.
    pub fn duplicate(&self) -> (copy: JsonValue)
        ensures
            copy.model() == self.model(),
        decreases self,
    {
        match self {
            JsonValue::Null => JsonValue::Null,
            JsonValue::Bool(b) => JsonValue::Bool(*b),
            JsonValue::Number(text) => JsonValue::Number(text.clone()),
            JsonValue::String(text) => JsonValue::String(text.clone()),
            JsonValue::Array(items) => {
                let mut copies: Vec<JsonValue> = Vec::new();
                let mut i: usize = 0;
                while i < items.len()
                    invariant
                        i <= items@.len(),
                        self == JsonValue::Array(*items),
                        copies@.len() == i,
                        forall|j: int|
                            0 <= j < i ==> (#[trigger] copies@[j]).model() == items@[j].model(),
                    decreases items@.len() - i,
                {
                    let item = &items[i];
                    assert(decreases_to!(self => self->Array_0));
                    assert(decreases_to!(items => items@));
                    assert(decreases_to!(items@ => items@[i as int]));
                    copies.push(item.duplicate());
                    i = i + 1;
                }
                assert(item_models(copies@) =~= item_models(items@));
                JsonValue::Array(copies)
            },
            JsonValue::Object(entries) => {
                let mut copies: Vec<(String, JsonValue)> = Vec::new();
                let mut i: usize = 0;
                while i < entries.len()
                    invariant
                        i <= entries@.len(),
                        self == JsonValue::Object(*entries),
                        copies@.len() == i,
                        forall|j: int|
                            #![trigger copies@[j]]
                            0 <= j < i ==> copies@[j].0@ == entries@[j].0@ && copies@[j].1.model()
                                == entries@[j].1.model(),
                    decreases entries@.len() - i,
                {
                    let entry = &entries[i];
                    assert(decreases_to!(self => self->Object_0));
                    assert(decreases_to!(entries => entries@));
                    assert(decreases_to!(entries@ => entries@[i as int]));
                    assert(decreases_to!(entries@[i as int] => entries@[i as int].1));
                    copies.push((entry.0.clone(), entry.1.duplicate()));
                    i = i + 1;
                }
                assert(entry_models(copies@) =~= entry_models(entries@));
                JsonValue::Object(copies)
            },
        }
    }

    /// The compact JSON text of this value.
    pub fn text(&self) -> (text: String)
        ensures
            text@ == json_text(self.model()),
        decreases self,
    {
        match self {
            JsonValue::Null => "null".to_owned(),
            JsonValue::Bool(b) => if *b {
                "true".to_owned()
            } else {
                "false".to_owned()
            },
            JsonValue::Number(text) => text.clone(),
            JsonValue::String(text) => json_string_text(text.as_str()),
            JsonValue::Array(items) => {
                let ghost all = item_texts(item_models(items@));
                let mut parts: Vec<String> = Vec::new();
                let mut i: usize = 0;
                while i < items.len()
                    invariant
                        i <= items@.len(),
                        self == JsonValue::Array(*items),
                        all == item_texts(item_models(items@)),
                        crate::text::texts(parts@) == all.take(i as int),
                    decreases items@.len() - i,
                {
                    let item = &items[i];
                    assert(decreases_to!(self => self->Array_0));
                    assert(decreases_to!(items => items@));
                    assert(decreases_to!(items@ => items@[i as int]));
                    let ghost so_far = crate::text::texts(parts@);
                    parts.push(item.text());
                    assert(item_models(items@)[i as int] == item.model());
                    assert(crate::text::texts(parts@) =~= so_far.push(all[i as int]));
                    assert(all.take(i + 1) =~= so_far.push(all[i as int]));
                    i = i + 1;
                }
                assert(all.take(i as int) =~= all);
                let mut text = "[".to_owned();
                text.append(join_texts(&parts, ",").as_str());
                text.append("]");
                text
            },
            JsonValue::Object(entries) => {
                let ghost all = entry_texts(entry_models(entries@));
                let mut members: Vec<(String, String)> = Vec::new();
                let mut i: usize = 0;
                while i < entries.len()
                    invariant
                        i <= entries@.len(),
                        self == JsonValue::Object(*entries),
                        all == entry_texts(entry_models(entries@)),
                        crate::types::pairs_model(members@) == all.take(i as int),
                    decreases entries@.len() - i,
                {
                    let entry = &entries[i];
                    assert(decreases_to!(self => self->Object_0));
                    assert(decreases_to!(entries => entries@));
                    assert(decreases_to!(entries@ => entries@[i as int]));
                    assert(decreases_to!(entries@[i as int] => entries@[i as int].1));
                    let ghost so_far = crate::types::pairs_model(members@);
                    members.push((entry.0.clone(), entry.1.text()));
                    assert(entry_models(entries@)[i as int] == (entry.0@, entry.1.model()));
                    assert(crate::types::pairs_model(members@) =~= so_far.push(all[i as int]));
                    assert(all.take(i + 1) =~= so_far.push(all[i as int]));
                    i = i + 1;
                }
                assert(all.take(i as int) =~= all);
                let mut text = "{".to_owned();
                text.append(members_text(members.as_slice()).as_str());
                text.append("}");
                text
            },
        }
    }
}

/// The text of an object does not depend on the order of its entries.
pub proof fn law_json_text_ignores_order(a: Seq<(Seq<char>, Json)>, b: Seq<(Seq<char>, Json)>)
    requires
        crate::sort::distinct_firsts(a),
        crate::sort::distinct_firsts(b),
        forall|entry: (Seq<char>, Json)| #[trigger] a.contains(entry) <==> b.contains(entry),
    ensures
        json_text(Json::Object(a)) == json_text(Json::Object(b)),
{
    let texts_a = entry_texts(a);
    let texts_b = entry_texts(b);
    assert forall|i: int, j: int|
        0 <= i < texts_a.len() && 0 <= j < texts_a.len() && #[trigger] texts_a[i].0
            == #[trigger] texts_a[j].0 implies i == j by {
        assert(a[i].0 == a[j].0);
    }
    assert forall|i: int, j: int|
        0 <= i < texts_b.len() && 0 <= j < texts_b.len() && #[trigger] texts_b[i].0
            == #[trigger] texts_b[j].0 implies i == j by {
        assert(b[i].0 == b[j].0);
    }
    assert forall|text: (Seq<char>, Seq<char>)| #[trigger]
        texts_a.contains(text) <==> texts_b.contains(text) by {
        lemma_entry_texts_contain(a, b, text);
        lemma_entry_texts_contain(b, a, text);
    }
    crate::sort::law_distinct_firsts_sort_alike(texts_a, texts_b);
}

proof fn lemma_entry_texts_contain(
    a: Seq<(Seq<char>, Json)>,
    b: Seq<(Seq<char>, Json)>,
    text: (Seq<char>, Seq<char>),
)
    requires
        forall|entry: (Seq<char>, Json)| #[trigger] a.contains(entry) <==> b.contains(entry),
    ensures
        entry_texts(a).contains(text) ==> entry_texts(b).contains(text),
{
    if entry_texts(a).contains(text) {
        let i = choose|i: int| 0 <= i < entry_texts(a).len() && entry_texts(a)[i] == text;
        assert(a.contains(a[i]));
        assert(b.contains(a[i]));
        let j = choose|j: int| 0 <= j < b.len() && b[j] == a[i];
        assert(entry_texts(b)[j] == text);
    }
}

/// What `serde_json::from_str` makes of a text: a value, or the message of the
/// error.
pub uninterp spec fn json_parse(text: Seq<char>) -> Result<serde_json::Value, Seq<char>>;

/// Calls `serde_json::from_str` for a `serde_json::Value`. Whether there is a
/// value and which, and what the error says, is the name [`json_parse`]. The parser
/// counts the digits of a number in 32 bits with a sign, which bounds the length.
#[verifier::external_body]
pub(crate) fn parse_json(text: &str) -> (parsed: Result<serde_json::Value, String>)
    requires
        text@.len() <= crate::text::MAX_PARSED_CHARS,
    ensures
        parsed_model(parsed) == json_parse(text@),
{
    match serde_json::from_str::<serde_json::Value>(text) {
        Ok(value) => Ok(value),
        Err(error) => Err(error.to_string()),
    }
}

/// The outcome of a parse with the message of the error as text.
pub open spec fn parsed_model(parsed: Result<serde_json::Value, String>) -> Result<
    serde_json::Value,
    Seq<char>,
> {
    match parsed {
        Ok(value) => Ok(value),
        Err(message) => Err(message@),
    }
}

/// The number that a lower-case hexadecimal digit stands for.
pub open spec fn digit_value(c: char) -> int {
    if '0' <= c <= '9' {
        c as int - '0' as int
    } else {
        c as int - 'a' as int + 10
    }
}

/// The character that stands for itself behind a backslash, or for which a letter does.
pub open spec fn behind_backslash(c: char) -> char {
    if c == 'b' {
        '\u{8}'
    } else if c == 't' {
        '\t'
    } else if c == 'n' {
        '\n'
    } else if c == 'f' {
        '\u{c}'
    } else if c == 'r' {
        '\r'
    } else {
        c
    }
}

/// What is read in the JSON text of a string, between its quotes.
pub open spec fn read_escapes(text: Seq<char>) -> Seq<char>
    decreases text.len(),
{
    if text.len() == 0 {
        Seq::empty()
    } else if text[0] != '\\' || text.len() < 2 {
        seq![text[0]] + read_escapes(text.skip(1))
    } else if text[1] == 'u' && text.len() >= 6 {
        seq![
            (4096 * digit_value(text[2]) + 256 * digit_value(text[3]) + 16 * digit_value(text[4])
                + digit_value(text[5])) as char,
        ] + read_escapes(text.skip(6))
    } else {
        seq![behind_backslash(text[1])] + read_escapes(text.skip(2))
    }
}

/// A string can be read back from its JSON text: that is a quote, the characters of the
/// string, escaped where they have to be, and a quote, and no control character or bare quote
/// stands between the quotes.
pub proof fn law_json_string_reads_back(text: Seq<char>)
    ensures
        ({
            let written = json_string(text);
            let inner = written.subrange(1, written.len() - 1);
            &&& written.len() >= 2
            &&& written.first() == '"'
            &&& written.last() == '"'
            &&& read_escapes(inner) == text
            &&& forall|i: int| 0 <= i < inner.len() ==> (#[trigger] inner[i]) as int >= 0x20
        }),
{
    let written = json_string(text);
    let inner = text.map_values(|c: char| escaped(c)).flatten();
    assert(written.subrange(1, written.len() - 1) =~= inner);
    lemma_escapes_read_back(text);
}

proof fn lemma_code(c: char)
    ensures
        0 <= c as int,
        (c as int) as char == c,
{
}

proof fn lemma_hex_digit(n: int)
    requires
        0 <= n < 16,
    ensures
        digit_value(hex_digit(n)) == n,
        hex_digit(n) as int >= 0x20,
{
    let code = if n < 10 {
        48 + n
    } else {
        87 + n
    };
    assert(hex_digit(n) as int == code);
}

proof fn lemma_escapes_read_back(text: Seq<char>)
    ensures
        ({
            let inner = text.map_values(|c: char| escaped(c)).flatten();
            &&& read_escapes(inner) == text
            &&& forall|i: int| 0 <= i < inner.len() ==> (#[trigger] inner[i]) as int >= 0x20
        }),
    decreases text.len(),
{
    let parts = text.map_values(|c: char| escaped(c));
    let inner = parts.flatten();
    if text.len() > 0 {
        let rest = text.drop_first();
        let c = text[0];
        assert(parts.drop_first() =~= rest.map_values(|c: char| escaped(c)));
        lemma_escapes_read_back(rest);
        let tail = rest.map_values(|c: char| escaped(c)).flatten();
        let head = escaped(c);
        assert(inner =~= head + tail);
        assert(inner.skip(head.len() as int) =~= tail);
        if c as int <= 0x1f && head.len() == 6 {
            assert(inner[0] == '\\' && inner[1] == 'u' && inner[2] == '0' && inner[3] == '0');
            assert(inner[4] == hex_digit(c as int / 16));
            assert(inner[5] == hex_digit(c as int % 16));
            lemma_code(c);
            lemma_hex_digit(c as int / 16);
            lemma_hex_digit(c as int % 16);
            assert(digit_value('0') == 0);
            assert(16 * (c as int / 16) + c as int % 16 == c as int);
            assert(4096 * digit_value(inner[2]) + 256 * digit_value(inner[3]) + 16 * digit_value(
                inner[4],
            ) + digit_value(inner[5]) == c as int);
            assert(read_escapes(inner) == seq![c] + read_escapes(inner.skip(6)));
        } else if head.len() == 2 {
            assert(inner[0] == '\\');
            assert(inner[1] == head[1]);
            assert(inner[1] != 'u');
            assert(behind_backslash(inner[1]) == c);
            assert(read_escapes(inner) == seq![c] + read_escapes(inner.skip(2)));
        } else {
            assert(inner[0] == c);
            assert(c != '\\');
            assert(read_escapes(inner) == seq![c] + read_escapes(inner.skip(1)));
        }
        assert(read_escapes(inner) == seq![c] + rest);
        assert(seq![c] + rest =~= text);
        assert forall|i: int| 0 <= i < inner.len() implies (#[trigger] inner[i]) as int >= 0x20 by {
            if i >= head.len() {
                assert(inner[i] == tail[i - head.len()]);
            } else {
                assert(inner[i] == head[i]);
            }
        }
    } else {
        assert(inner =~= Seq::empty());
        assert(read_escapes(inner) =~= text);
    }
}

/// The JSON text of a value that holds no other: a word for null and the truth values, a
/// number as it is written, a string between quotes.
pub proof fn law_text_of_simple_values(value: &JsonValue, text: String)
    requires
        call_ensures(JsonValue::text, (value,), text),
    ensures
        value is Null ==> text@ == "null"@,
        *value == JsonValue::Bool(true) ==> text@ == "true"@,
        *value == JsonValue::Bool(false) ==> text@ == "false"@,
        value matches JsonValue::Number(digits) ==> text@ == digits@,
        value matches JsonValue::String(string) ==> text@ == json_string(string@),
{
}

/// The JSON text of an array holds the text of every item, in order: it starts as `[]`, and
/// with one more item it grows by the text of that item, behind a comma where it is not the
/// first.
pub proof fn law_array_text_grows(items: Seq<Json>, item: Json)
    ensures
        json_text(Json::Array(Seq::empty())) == "[]"@,
        json_text(Json::Array(items.push(item))) == (if items.len() == 0 {
            "["@ + json_text(item) + "]"@
        } else {
            json_text(Json::Array(items)).drop_last() + ","@ + json_text(item) + "]"@
        }),
{
    reveal_strlit("[]");
    reveal_strlit("[");
    reveal_strlit("]");
    assert(item_texts(Seq::empty()) =~= Seq::empty());
    assert(json_text(Json::Array(Seq::empty())) =~= "[]"@);
    let texts = item_texts(items);
    assert(item_texts(items.push(item)) =~= texts.push(json_text(item)));
    crate::text::law_join_grows(texts, json_text(item), ","@);
    if items.len() > 0 {
        let inside = crate::text::joined(texts, ","@);
        assert(json_text(Json::Array(items)).drop_last() =~= "["@ + inside);
        assert(json_text(Json::Array(items.push(item))) =~= json_text(
            Json::Array(items),
        ).drop_last() + ","@ + json_text(item) + "]"@);
    }
}

/// The JSON text of an object holds every member, in the order of the keys: it starts as
/// `{}`, and with one more member whose key comes last it grows by that member, behind a
/// comma where it is not the first.
pub proof fn law_object_text_grows(
    entries: Seq<(Seq<char>, Json)>,
    key: Seq<char>,
    value: Json,
)
    requires
        forall|i: int|
            0 <= i < entries.len() ==> crate::sort::text_le((#[trigger] entries[i]).0, key),
    ensures
        json_text(Json::Object(Seq::empty())) == "{}"@,
        json_text(Json::Object(entries.push((key, value)))) == (if entries.len() == 0 {
            "{"@ + json_string(key) + ":"@ + json_text(value) + "}"@
        } else {
            json_text(Json::Object(entries)).drop_last() + ","@ + json_string(key) + ":"@
                + json_text(value) + "}"@
        }),
{
    broadcast use vstd::seq_lib::group_to_multiset_ensures;

    reveal_strlit("{}");
    reveal_strlit("{");
    reveal_strlit("}");
    let le = crate::sort::by_first::<Seq<char>>();
    let none = Seq::<(Seq<char>, Json)>::empty();
    assert(entry_texts(none) =~= Seq::empty());
    assert(member_texts(crate::sort::stable_sort(entry_texts(none), le)) =~= Seq::empty());
    assert(json_text(Json::Object(none)) =~= "{}"@);
    let texts = entry_texts(entries);
    let one = (key, json_text(value));
    let more = entry_texts(entries.push((key, value)));
    assert(more =~= texts.push(one));
    assert(more.drop_last() =~= texts);
    let ordered = crate::sort::stable_sort(texts, le);
    crate::sort::law_sort_keeps_items(texts, le);
    assert(ordered.len() == ordered.to_multiset().len());
    assert(texts.len() == texts.to_multiset().len());
    if ordered.len() > 0 {
        assert(ordered.contains(ordered.last()));
        assert(ordered.to_multiset().count(ordered.last()) > 0);
        assert(texts.contains(ordered.last()));
        let i = choose|i: int| 0 <= i < texts.len() && texts[i] == ordered.last();
        assert(crate::sort::text_le(entries[i].0, key));
    }
    assert(crate::sort::stable_sort(more, le) == ordered.push(one));
    assert(member_texts(ordered.push(one)) =~= member_texts(ordered).push(member_text(one)));
    crate::text::law_join_grows(member_texts(ordered), member_text(one), ","@);
    let whole = json_text(Json::Object(entries.push((key, value))));
    if entries.len() == 0 {
        assert(whole =~= "{"@ + json_string(key) + ":"@ + json_text(value) + "}"@);
    } else {
        let inside = crate::text::joined(member_texts(ordered), ","@);
        assert(json_text(Json::Object(entries)).drop_last() =~= "{"@ + inside);
        assert(whole =~= json_text(Json::Object(entries)).drop_last() + ","@ + json_string(key)
            + ":"@ + json_text(value) + "}"@);
    }
}

/// The text of a value is that of its model, and the model is the value, part by part.
pub proof fn law_model_is_the_value(value: &JsonValue, text: String)
    requires
        call_ensures(JsonValue::text, (value,), text),
    ensures
        text@ == json_text(value.model()),
        value is Null <==> value.model() is Null,
        value matches JsonValue::Bool(b) ==> value.model() == Json::Bool(*b),
        value matches JsonValue::Number(digits) ==> value.model() == Json::Number(digits@),
        value matches JsonValue::String(string) ==> value.model() == Json::String(string@),
        value matches JsonValue::Array(items) ==> {
            &&& value.model() is Array
            &&& value.model()->Array_0.len() == items@.len()
            &&& forall|i: int|
                0 <= i < items@.len() ==> #[trigger] value.model()->Array_0[i]
                    == items@[i].model()
        },
        value matches JsonValue::Object(entries) ==> {
            &&& value.model() is Object
            &&& value.model()->Object_0.len() == entries@.len()
            &&& forall|i: int|
                0 <= i < entries@.len() ==> #[trigger] value.model()->Object_0[i] == (
                    entries@[i].0@,
                    entries@[i].1.model(),
                )
        },
{
}

/// A number is written in decimal, and a copy is the value that it was made of.
pub proof fn law_numbers_and_copies(n: u64, number: JsonValue, value: &JsonValue, copy: JsonValue)
    requires
        call_ensures(JsonValue::number, (n,), number),
        call_ensures(JsonValue::duplicate, (value,), copy),
    ensures
        number.model() == Json::Number(crate::text::decimal(n as nat)),
        copy.model() == value.model(),
{
}

} // verus!

//! Credential references: which ones a profile holds, and what they resolve to.

use crate::client_registry::collect_cred_refs;
use crate::json::JsonValue;
use crate::sort::{sorted_set, Sortable};
use crate::text::{chars_of, find_text, same_text};
use crate::types::{sorted_pair_set, HeaderTable};
use vstd::prelude::*;

verus! {

/// Whether a text holds the marker of a credential reference.
pub open spec fn has_marker(text: Seq<char>) -> bool {
    crate::text::find(text, "cred://"@) is Some
}

/// Whether the URL or a header value holds the marker of a credential reference.
pub open spec fn any_marker(url: Seq<char>, headers: Seq<(Seq<char>, Seq<char>)>) -> bool {
    has_marker(url) || exists|i: int|
        0 <= i < headers.len() && has_marker((#[trigger] headers[i]).1)
}

/// The credential references in the header values, in order.
pub open spec fn header_refs(headers: Seq<(Seq<char>, Seq<char>)>) -> Seq<(Seq<char>, Seq<char>)>
    decreases headers.len(),
{
    if headers.len() == 0 {
        Seq::empty()
    } else {
        header_refs(headers.drop_last()) + crate::client_registry::cred_refs(headers.last().1)
    }
}

/// The credential references in the URL and the header values.
pub open spec fn all_refs(url: Seq<char>, headers: Seq<(Seq<char>, Seq<char>)>) -> Seq<
    (Seq<char>, Seq<char>),
> {
    crate::client_registry::cred_refs(url) + header_refs(headers)
}

/// Whether `keys` are the credentials behind the URL and the headers: each once,
/// in their order, and no others.
pub open spec fn are_cred_keys(
    keys: Seq<(Seq<char>, Seq<char>)>,
    url: Seq<char>,
    headers: Seq<(Seq<char>, Seq<char>)>,
) -> bool {
    &&& crate::sort::strictly_in_order(keys, crate::sort::by_both())
    &&& forall|key: (Seq<char>, Seq<char>)| #[trigger]
        keys.contains(key) <==> all_refs(url, headers).contains(key)
}

fn append_pairs(pairs: &mut Vec<(String, String)>, more: Option<Vec<(String, String)>>)
    ensures
        crate::types::pairs_model(final(pairs)@) == crate::types::pairs_model(old(pairs)@)
            + match more {
            Some(more) => crate::types::pairs_model(more@),
            None => Seq::empty(),
        },
{
    let ghost given = crate::types::pairs_model(pairs@);
    match more {
        Some(more) => {
            let mut i: usize = 0;
            let ghost added = crate::types::pairs_model(more@);
            assert(given + added.take(0) =~= given);
            while i < more.len()
                invariant
                    i <= more@.len(),
                    added == crate::types::pairs_model(more@),
                    crate::types::pairs_model(pairs@) == given + added.take(i as int),
                decreases more@.len() - i,
            {
                let ghost so_far = crate::types::pairs_model(pairs@);
                pairs.push((more[i].0.clone(), more[i].1.clone()));
                assert(crate::types::pairs_model(pairs@) =~= so_far.push(added[i as int]));
                assert(given + added.take(i + 1) =~= so_far.push(added[i as int]));
                i = i + 1;
            }
            assert(added.take(i as int) =~= added);
        },
        None => {
            assert(given + Seq::empty() =~= given);
        },
    }
}

/// The credentials behind the URL and the headers of a profile.
pub fn cred_keys_of(url: &str, headers: &HeaderTable) -> (keys: Vec<(String, String)>)
    ensures
        are_cred_keys(crate::types::pairs_model(keys@), url@, headers@),
{
    let entries = headers.entries();
    let ghost all = headers@;
    let mut found: Vec<(String, String)> = Vec::new();
    assert(crate::types::pairs_model(found@) =~= Seq::empty());
    append_pairs(&mut found, collect_cred_refs(url));
    let mut i: usize = 0;
    let ghost url_refs = crate::client_registry::cred_refs(url@);
    assert(crate::types::pairs_model(found@) =~= url_refs);
    assert(all.take(0) =~= Seq::empty());
    assert(url_refs + header_refs(all.take(0)) =~= url_refs);
    while i < entries.len()
        invariant
            i <= entries@.len(),
            all == crate::types::pairs_model(entries@),
            url_refs == crate::client_registry::cred_refs(url@),
            crate::types::pairs_model(found@) == url_refs + header_refs(all.take(i as int)),
        decreases entries@.len() - i,
    {
        let value = &entries[i].1;
        append_pairs(&mut found, collect_cred_refs(value.as_str()));
        proof {
            assert(all.take(i + 1).drop_last() =~= all.take(i as int));
            assert(all.take(i + 1).last().1 == value@);
            let refs = crate::client_registry::cred_refs(value@);
            assert(refs.len() == 0 ==> refs =~= Seq::empty());
            assert(crate::types::pairs_model(found@) =~= url_refs + header_refs(all.take(i + 1)));
        }
        i = i + 1;
    }
    assert(all.take(i as int) =~= all);
    sorted_pair_set(found.as_slice())
}

fn marker_in(text: &str) -> (yes: bool)
    ensures
        yes == has_marker(text@),
{
    let chars = chars_of(text);
    find_text(chars.as_slice(), "cred://").is_some()
}

/// Decides [`any_marker`].
pub fn marker_in_any(url: &str, headers: &HeaderTable) -> (yes: bool)
    ensures
        yes == any_marker(url@, headers@),
{
    if marker_in(url) {
        return true;
    }
    let entries = headers.entries();
    let ghost all = headers@;
    let mut i: usize = 0;
    while i < entries.len()
        invariant
            i <= entries@.len(),
            all == headers@,
            all == crate::types::pairs_model(entries@),
            forall|j: int| 0 <= j < i ==> !has_marker((#[trigger] all[j]).1),
        decreases entries@.len() - i,
    {
        if marker_in(entries[i].1.as_str()) {
            assert(has_marker(all[i as int].1));
            return true;
        }
        i = i + 1;
    }
    false
}

/// A text, by reference, ordered as texts are.
#[derive(Clone, Copy)]
struct TextRef<'a> {
    text: &'a String,
}

impl<'a> Sortable for TextRef<'a> {
    type Model = Seq<char>;

    closed spec fn model(&self) -> Seq<char> {
        self.text@
    }

    open spec fn order() -> spec_fn(Seq<char>, Seq<char>) -> bool {
        crate::sort::by_text()
    }

    fn may_precede(&self, other: &Self) -> (yes: bool) {
        crate::sort::at_or_before(self.text.as_str(), other.text.as_str())
    }
}

/// The texts of several lists, one list after the other.
pub open spec fn flattened(lists: Seq<Vec<String>>) -> Seq<Seq<char>>
    decreases lists.len(),
{
    if lists.len() == 0 {
        Seq::empty()
    } else {
        flattened(lists.drop_last()) + crate::text::texts(lists.last()@)
    }
}

/// The credential references of several templates: each once, in their order.
pub fn credential_uris(template_refs: &Vec<Vec<String>>) -> (uris: Vec<String>)
    ensures
        crate::sort::strictly_in_order(crate::text::texts(uris@), crate::sort::by_text()),
        forall|uri: Seq<char>| #[trigger]
            crate::text::texts(uris@).contains(uri) <==> flattened(template_refs@).contains(uri),
{
    let mut refs: Vec<TextRef> = Vec::new();
    let mut i: usize = 0;
    assert(template_refs@.take(0) =~= Seq::empty());
    assert(crate::sort::models(refs@) =~= flattened(template_refs@.take(0)));
    while i < template_refs.len()
        invariant
            i <= template_refs@.len(),
            crate::sort::models(refs@) == flattened(template_refs@.take(i as int)),
        decreases template_refs@.len() - i,
    {
        let list = &template_refs[i];
        let ghost given = crate::sort::models(refs@);
        let ghost added = crate::text::texts(list@);
        let mut n: usize = 0;
        assert(given + added.take(0) =~= given);
        while n < list.len()
            invariant
                n <= list@.len(),
                added == crate::text::texts(list@),
                crate::sort::models(refs@) == given + added.take(n as int),
            decreases list@.len() - n,
        {
            let ghost so_far = crate::sort::models(refs@);
            refs.push(TextRef { text: &list[n] });
            assert(crate::sort::models(refs@) =~= so_far.push(added[n as int]));
            assert(given + added.take(n + 1) =~= so_far.push(added[n as int]));
            n = n + 1;
        }
        assert(added.take(n as int) =~= added);
        assert(template_refs@.take(i + 1).drop_last() =~= template_refs@.take(i as int));
        i = i + 1;
    }
    assert(template_refs@.take(i as int) =~= template_refs@);
    proof {
        crate::sort::lemma_by_text_linear();
    }
    let ordered = sorted_set(&refs);
    let ghost all = crate::sort::models(ordered@);
    let mut uris: Vec<String> = Vec::new();
    let mut k: usize = 0;
    while k < ordered.len()
        invariant
            k <= ordered@.len(),
            all == crate::sort::models(ordered@),
            crate::text::texts(uris@) == all.take(k as int),
        decreases ordered@.len() - k,
    {
        let text = ordered[k].text;
        let ghost so_far = crate::text::texts(uris@);
        uris.push(text.clone());
        assert(crate::text::texts(uris@) =~= so_far.push(text@));
        assert(all.take(k + 1) =~= so_far.push(text@));
        k = k + 1;
    }
    assert(all.take(k as int) =~= all);
    uris
}

/// The object that is handed over for its credentials to be filled in: each
/// reference under itself.
pub open spec fn snapshot_of(uris: Seq<Seq<char>>) -> crate::json::Json {
    crate::json::Json::Object(
        uris.map_values(|uri: Seq<char>| (uri, crate::json::Json::String(uri))),
    )
}

/// Computes [`snapshot_of`].
pub fn credential_snapshot(uris: &Vec<String>) -> (snapshot: JsonValue)
    ensures
        snapshot.model() == snapshot_of(crate::text::texts(uris@)),
{
    let mut entries: Vec<(String, JsonValue)> = Vec::new();
    let mut i: usize = 0;
    while i < uris.len()
        invariant
            i <= uris@.len(),
            entries@.len() == i,
            forall|j: int|
                #![trigger entries@[j]]
                0 <= j < i ==> entries@[j].0@ == uris@[j]@ && entries@[j].1.model()
                    == crate::json::Json::String(uris@[j]@),
        decreases uris@.len() - i,
    {
        entries.push((uris[i].clone(), JsonValue::String(uris[i].clone())));
        i = i + 1;
    }
    let snapshot = JsonValue::Object(entries);
    assert(snapshot.model()->Object_0 =~= snapshot_of(crate::text::texts(uris@))->Object_0);
    snapshot
}

/// The entries of an object whose values are strings, in order.
pub open spec fn string_entries(entries: Seq<(Seq<char>, crate::json::Json)>) -> Seq<
    (Seq<char>, Seq<char>),
>
    decreases entries.len(),
{
    if entries.len() == 0 {
        Seq::empty()
    } else {
        let before = string_entries(entries.drop_last());
        match entries.last().1 {
            crate::json::Json::String(text) => before.push((entries.last().0, text)),
            _ => before,
        }
    }
}

/// The credentials that a filled-in snapshot holds: its entries that are strings,
/// and none where it is no object.
pub open spec fn resolved_credentials(snapshot: crate::json::Json) -> Seq<(Seq<char>, Seq<char>)> {
    match snapshot {
        crate::json::Json::Object(entries) => string_entries(entries),
        _ => Seq::empty(),
    }
}

/// Computes [`resolved_credentials`].
pub fn credential_values(snapshot: &JsonValue) -> (values: Vec<(String, String)>)
    ensures
        crate::types::pairs_model(values@) == resolved_credentials(snapshot.model()),
{
    let mut values: Vec<(String, String)> = Vec::new();
    assert(crate::types::pairs_model(values@) =~= Seq::empty());
    match snapshot {
        JsonValue::Object(entries) => {
            let ghost all = crate::json::entry_models(entries@);
            let mut i: usize = 0;
            assert(all.take(0) =~= Seq::empty());
            while i < entries.len()
                invariant
                    i <= entries@.len(),
                    all == crate::json::entry_models(entries@),
                    crate::types::pairs_model(values@) == string_entries(all.take(i as int)),
                decreases entries@.len() - i,
            {
                let entry = &entries[i];
                assert(all.take(i + 1).drop_last() =~= all.take(i as int));
                assert(all.take(i + 1).last() == (entry.0@, entry.1.model()));
                let ghost so_far = crate::types::pairs_model(values@);
                match &entry.1 {
                    JsonValue::String(text) => {
                        values.push((entry.0.clone(), text.clone()));
                        assert(crate::types::pairs_model(values@) =~= so_far.push(
                            (entry.0@, text@),
                        ));
                    },
                    _ => {},
                }
                i = i + 1;
            }
            assert(all.take(i as int) =~= all);
        },
        _ => {},
    }
    values
}

/// The value of the first pair under `key`.
pub open spec fn value_under(pairs: Seq<(Seq<char>, Seq<char>)>, key: Seq<char>) -> Option<Seq<char>>
    decreases pairs.len(),
{
    if pairs.len() == 0 {
        None
    } else if pairs.first().0 == key {
        Some(pairs.first().1)
    } else {
        value_under(pairs.drop_first(), key)
    }
}

/// The credential that was resolved for a reference.
pub fn credential_value(values: &Vec<(String, String)>, uri: &str) -> (value: Option<String>)
    ensures
        crate::text::optional_text(value) == value_under(crate::types::pairs_model(values@), uri@),
{
    let ghost all = crate::types::pairs_model(values@);
    let mut i: usize = 0;
    assert(all.skip(0) =~= all);
    while i < values.len()
        invariant
            i <= values@.len(),
            all == crate::types::pairs_model(values@),
            value_under(all, uri@) == value_under(all.skip(i as int), uri@),
        decreases values@.len() - i,
    {
        let pair = &values[i];
        assert(all.skip(i as int).first() == (pair.0@, pair.1@));
        if same_text(pair.0.as_str(), uri) {
            return Some(pair.1.clone());
        }
        assert(all.skip(i as int).drop_first() =~= all.skip(i + 1));
        i = i + 1;
    }
    None
}

/// Why credentials could not be resolved.
pub enum CredentialFailure {
    /// The backend that issues them failed, with its own message.
    Backend(String),
    /// Something else failed.
    Other(String),
}

/// The message for credentials that could not be resolved. What a backend says
/// is passed on as it is.
pub open spec fn credential_failure_text(failure: CredentialFailure) -> Seq<char> {
    match failure {
        CredentialFailure::Backend(cause) => cause@,
        CredentialFailure::Other(reason) => "credential resolution: "@ + reason@,
    }
}

/// Computes [`credential_failure_text`].
pub fn credential_failure_message(failure: CredentialFailure) -> (message: String)
    ensures
        message@ == credential_failure_text(failure),
{
    match failure {
        CredentialFailure::Backend(cause) => cause,
        CredentialFailure::Other(reason) => {
            let mut message = "credential resolution: ".to_owned();
            message.append(reason.as_str());
            message
        },
    }
}

/// A text without the marker holds no credential reference.
pub proof fn law_no_marker_no_reference(url: Seq<char>, headers: Seq<(Seq<char>, Seq<char>)>)
    requires
        !any_marker(url, headers),
    ensures
        all_refs(url, headers).len() == 0,
    decreases headers.len(),
{
    crate::client_registry::lemma_refs_from_first_marker(url);
    if headers.len() > 0 {
        let shorter = headers.drop_last();
        crate::client_registry::lemma_refs_from_first_marker(headers.last().1);
        assert forall|i: int| 0 <= i < shorter.len() implies !has_marker(
            (#[trigger] shorter[i]).1,
        ) by {
            assert(shorter[i] == headers[i]);
        }
        assert(!has_marker(headers[headers.len() - 1].1));
        law_no_marker_no_reference(url, shorter);
    }
}

/// When a credential that the operator refers to is revoked, the client of every
/// call of the profile is dropped, whatever the arguments of the call were.
pub proof fn law_revocation_reaches_every_call(
    clients: crate::client_registry::Clients,
    digest: Seq<u8>,
    url: Seq<char>,
    headers: Seq<(Seq<char>, Seq<char>)>,
    key: (Seq<char>, Seq<char>),
)
    requires
        clients.contains_key(digest),
        are_cred_keys(clients[digest].cred_keys, url, headers),
        all_refs(url, headers).contains(key),
    ensures
        !crate::client_registry::without(
            clients,
            crate::client_registry::holds_credential(key.0, key.1),
        ).contains_key(digest),
{
    assert(clients[digest].cred_keys.contains(key));
}

/// Whether `text` holds the template reference `${cred://plugin_id/target}`.
pub open spec fn holds_reference(text: Seq<char>, plugin_id: Seq<char>, target: Seq<char>) -> bool {
    exists|before: Seq<char>, behind: Seq<char>|
        text == #[trigger] template_text(before, plugin_id, target, behind)
}

/// A text with a template reference in it.
pub open spec fn template_text(
    before: Seq<char>,
    plugin_id: Seq<char>,
    target: Seq<char>,
    behind: Seq<char>,
) -> Seq<char> {
    before + "${"@ + crate::client_registry::reference_text(plugin_id, target) + "}"@ + behind
}

/// Whether the URL or a header value holds a template reference.
pub open spec fn any_holds_reference(
    url: Seq<char>,
    headers: Seq<(Seq<char>, Seq<char>)>,
    plugin_id: Seq<char>,
    target: Seq<char>,
) -> bool {
    holds_reference(url, plugin_id, target) || exists|i: int|
        0 <= i < headers.len() && holds_reference((#[trigger] headers[i]).1, plugin_id, target)
}

proof fn lemma_template_reference_is_found(
    text: Seq<char>,
    plugin_id: Seq<char>,
    target: Seq<char>,
)
    requires
        crate::client_registry::makes_reference(plugin_id, target),
        holds_reference(text, plugin_id, target),
    ensures
        crate::client_registry::cred_refs(text).contains((plugin_id, target)),
{
    let (before, behind): (Seq<char>, Seq<char>) = choose|before: Seq<char>, behind: Seq<char>|
        text == #[trigger] template_text(before, plugin_id, target, behind);
    reveal_strlit("}");
    let head = before + "${"@;
    let tail = "}"@ + behind;
    assert(tail.first() == '}');
    assert(text =~= head + crate::client_registry::reference_text(plugin_id, target) + tail);
    crate::client_registry::law_every_reference_is_found(head, plugin_id, target, tail);
}

proof fn lemma_header_refs_contain(
    headers: Seq<(Seq<char>, Seq<char>)>,
    i: int,
    key: (Seq<char>, Seq<char>),
)
    requires
        0 <= i < headers.len(),
        crate::client_registry::cred_refs(headers[i].1).contains(key),
    ensures
        header_refs(headers).contains(key),
    decreases headers.len(),
{
    let shorter = headers.drop_last();
    let before = header_refs(shorter);
    let last = crate::client_registry::cred_refs(headers.last().1);
    if i < shorter.len() {
        assert(shorter[i] == headers[i]);
        lemma_header_refs_contain(shorter, i, key);
        let n = choose|n: int| 0 <= n < before.len() && before[n] == key;
        assert(header_refs(headers)[n] == key);
    } else {
        let n = choose|n: int| 0 <= n < last.len() && last[n] == key;
        assert(header_refs(headers)[before.len() + n] == key);
    }
}

/// The credential of every template reference that the operator wrote, in the URL
/// or in a header, is among the references that make the credential keys.
pub proof fn law_template_references_are_keys(
    url: Seq<char>,
    headers: Seq<(Seq<char>, Seq<char>)>,
    plugin_id: Seq<char>,
    target: Seq<char>,
)
    requires
        crate::client_registry::makes_reference(plugin_id, target),
        any_holds_reference(url, headers, plugin_id, target),
    ensures
        all_refs(url, headers).contains((plugin_id, target)),
{
    let key = (plugin_id, target);
    let url_refs = crate::client_registry::cred_refs(url);
    if holds_reference(url, plugin_id, target) {
        lemma_template_reference_is_found(url, plugin_id, target);
        let n = choose|n: int| 0 <= n < url_refs.len() && url_refs[n] == key;
        assert(all_refs(url, headers)[n] == key);
    } else {
        let i = choose|i: int|
            0 <= i < headers.len() && holds_reference(
                (#[trigger] headers[i]).1,
                plugin_id,
                target,
            );
        lemma_template_reference_is_found(headers[i].1, plugin_id, target);
        lemma_header_refs_contain(headers, i, key);
        let refs = header_refs(headers);
        let n = choose|n: int| 0 <= n < refs.len() && refs[n] == key;
        assert(all_refs(url, headers)[url_refs.len() + n] == key);
    }
}

/// When a credential is revoked that a template reference of the profile names,
/// the client of every call of the profile is dropped, and the next request for
/// its digest asks for a new build.
pub proof fn law_revoked_template_credential_drops_the_client(
    clients: crate::client_registry::Clients,
    max_entries: usize,
    digest: Seq<u8>,
    url: Seq<char>,
    headers: Seq<(Seq<char>, Seq<char>)>,
    plugin_id: Seq<char>,
    target: Seq<char>,
    now: u64,
    action: crate::client_registry::BuildAction,
    after: crate::client_registry::Clients,
)
    requires
        clients.contains_key(digest),
        are_cred_keys(clients[digest].cred_keys, url, headers),
        crate::client_registry::makes_reference(plugin_id, target),
        any_holds_reference(url, headers, plugin_id, target),
        crate::client_registry::follows(
            crate::client_registry::without(
                clients,
                crate::client_registry::holds_credential(plugin_id, target),
            ),
            max_entries,
            digest,
            crate::client_registry::BuildEvent::Requested,
            now,
            action,
            after,
        ),
    ensures
        action is Build,
        !after.contains_key(digest),
{
    law_template_references_are_keys(url, headers, plugin_id, target);
    law_revocation_reaches_every_call(clients, digest, url, headers, (plugin_id, target));
}

/// The credential keys of a profile are fixed: two calls have the same keys.
pub proof fn law_cred_keys_are_fixed(
    a: Seq<(Seq<char>, Seq<char>)>,
    b: Seq<(Seq<char>, Seq<char>)>,
    url: Seq<char>,
    headers: Seq<(Seq<char>, Seq<char>)>,
)
    requires
        are_cred_keys(a, url, headers),
        are_cred_keys(b, url, headers),
    ensures
        a == b,
{
    crate::sort::lemma_by_both_linear();
    crate::sort::law_strict_order_unique(a, b, crate::sort::by_both());
}

pub(crate) proof fn lemma_string_entries(
    entries: Seq<(Seq<char>, crate::json::Json)>,
    key: Seq<char>,
    text: Seq<char>,
)
    ensures
        string_entries(entries).contains((key, text)) <==> entries.contains(
            (key, crate::json::Json::String(text)),
        ),
    decreases entries.len(),
{
    let pair = (key, text);
    let entry = (key, crate::json::Json::String(text));
    let found = string_entries(entries);
    if entries.len() > 0 {
        let shorter = entries.drop_last();
        let before = string_entries(shorter);
        lemma_string_entries(shorter, key, text);
        if entries.contains(entry) {
            let i = choose|i: int| 0 <= i < entries.len() && entries[i] == entry;
            if i < shorter.len() {
                assert(shorter[i] == entry);
                assert(shorter.contains(entry));
                let n = choose|n: int| 0 <= n < before.len() && before[n] == pair;
                assert(found[n] == pair);
            } else {
                assert(entries.last() == entry);
                assert(found[before.len() as int] == pair);
            }
        }
        if found.contains(pair) {
            let n = choose|n: int| 0 <= n < found.len() && found[n] == pair;
            if n < before.len() {
                assert(before[n] == pair);
                assert(before.contains(pair));
                let i = choose|i: int| 0 <= i < shorter.len() && shorter[i] == entry;
                assert(entries[i] == entry);
            } else {
                assert(entries[entries.len() - 1] == entry);
            }
        }
    }
}

/// Every credential that the host filled in is used, and nothing else is: the pairs that
/// templates are evaluated with are the entries of the snapshot whose values are strings,
/// all of them. A snapshot that is no object has none.
pub proof fn law_every_filled_in_credential_is_used(
    snapshot: &JsonValue,
    values: Vec<(String, String)>,
    key: Seq<char>,
    text: Seq<char>,
)
    requires
        call_ensures(credential_values, (snapshot,), values),
    ensures
        (exists|n: int|
            0 <= n < values@.len() && (#[trigger] values@[n]).0@ == key && values@[n].1@ == text)
            <==> (snapshot.model() is Object && snapshot.model()->Object_0.contains(
            (key, crate::json::Json::String(text)),
        )),
        !(snapshot.model() is Object) ==> values@.len() == 0,
{
    let pairs = crate::types::pairs_model(values@);
    assert(pairs.len() == values@.len());
    if snapshot.model() is Object {
        lemma_string_entries(snapshot.model()->Object_0, key, text);
    }
    if exists|n: int|
        0 <= n < values@.len() && (#[trigger] values@[n]).0@ == key && values@[n].1@ == text {
        let n = choose|n: int|
            0 <= n < values@.len() && (#[trigger] values@[n]).0@ == key && values@[n].1@ == text;
        assert(pairs[n] == (key, text));
        assert(pairs.contains((key, text)));
    }
    if pairs.contains((key, text)) {
        let n = choose|n: int| 0 <= n < pairs.len() && pairs[n] == (key, text);
        assert(values@[n].0@ == key && values@[n].1@ == text);
    }
}

proof fn lemma_value_under(pairs: Seq<(Seq<char>, Seq<char>)>, key: Seq<char>)
    ensures
        value_under(pairs, key) is None <==> forall|i: int|
            0 <= i < pairs.len() ==> (#[trigger] pairs[i]).0 != key,
        value_under(pairs, key) matches Some(value) ==> exists|i: int|
            {
                &&& 0 <= i < pairs.len()
                &&& #[trigger] pairs[i] == (key, value)
                &&& forall|j: int| 0 <= j < i ==> (#[trigger] pairs[j]).0 != key
            },
    decreases pairs.len(),
{
    if pairs.len() > 0 {
        if pairs.first().0 == key {
            assert(pairs[0] == (key, pairs.first().1));
        } else {
            let rest = pairs.drop_first();
            lemma_value_under(rest, key);
            if value_under(pairs, key) is None {
                assert forall|i: int| 0 <= i < pairs.len() implies (#[trigger] pairs[i]).0
                    != key by {
                    if i > 0 {
                        assert(pairs[i] == rest[i - 1]);
                    }
                }
            } else {
                let value = value_under(pairs, key)->Some_0;
                let i = choose|i: int|
                    {
                        &&& 0 <= i < rest.len()
                        &&& #[trigger] rest[i] == (key, value)
                        &&& forall|j: int| 0 <= j < i ==> (#[trigger] rest[j]).0 != key
                    };
                assert(pairs[i + 1] == (key, value));
                assert forall|j: int| 0 <= j < i + 1 implies (#[trigger] pairs[j]).0 != key by {
                    if j > 0 {
                        assert(pairs[j] == rest[j - 1]);
                    }
                }
            }
        }
    }
}

/// Looking up a reference gives the value of the first pair under it, and nothing exactly
/// where there is no such pair.
pub proof fn law_lookup_gives_the_first_value(
    values: &Vec<(String, String)>,
    uri: &str,
    value: Option<String>,
)
    requires
        call_ensures(credential_value, (values, uri), value),
    ensures
        value is None <==> forall|i: int|
            0 <= i < values@.len() ==> (#[trigger] values@[i]).0@ != uri@,
        value matches Some(value) ==> exists|i: int|
            {
                &&& 0 <= i < values@.len()
                &&& (#[trigger] values@[i]).0@ == uri@
                &&& values@[i].1@ == value@
                &&& forall|j: int| 0 <= j < i ==> (#[trigger] values@[j]).0@ != uri@
            },
{
    let pairs = crate::types::pairs_model(values@);
    lemma_value_under(pairs, uri@);
    assert forall|i: int| 0 <= i < values@.len() implies pairs[i].0 == (
    #[trigger] values@[i]).0@ by {}
    if value is None {
        assert forall|i: int| 0 <= i < values@.len() implies (#[trigger] values@[i]).0@ != uri@ by {
            assert(pairs[i].0 == values@[i].0@);
        }
    } else {
        let found = value->Some_0@;
        let i = choose|i: int|
            {
                &&& 0 <= i < pairs.len()
                &&& #[trigger] pairs[i] == (uri@, found)
                &&& forall|j: int| 0 <= j < i ==> (#[trigger] pairs[j]).0 != uri@
            };
        assert(values@[i].0@ == uri@ && values@[i].1@ == found);
        assert forall|j: int| 0 <= j < i implies (#[trigger] values@[j]).0@ != uri@ by {
            assert(pairs[j].0 == values@[j].0@);
        }
    }
}

/// After the host filled in a credential, looking up its reference gives that credential;
/// looking up a reference that was not filled in with a string gives nothing.
pub proof fn law_filled_in_credential_is_found(
    snapshot: &JsonValue,
    values: Vec<(String, String)>,
    uri: &str,
    value: Option<String>,
    entries: Seq<(Seq<char>, crate::json::Json)>,
    i: int,
)
    requires
        call_ensures(credential_values, (snapshot,), values),
        call_ensures(credential_value, (&values, uri), value),
        snapshot.model() == crate::json::Json::Object(entries),
        0 <= i < entries.len(),
        entries[i].0 == uri@,
        forall|j: int| 0 <= j < entries.len() && j != i ==> (#[trigger] entries[j]).0 != uri@,
    ensures
        entries[i].1 matches crate::json::Json::String(text) ==> value is Some
            && value->Some_0@ == text,
        !(entries[i].1 is String) ==> value is None,
{
    law_lookup_gives_the_first_value(&values, uri, value);
    if entries[i].1 is String {
        let text = entries[i].1->String_0;
        law_every_filled_in_credential_is_used(snapshot, values, uri@, text);
        assert(entries.contains((uri@, crate::json::Json::String(text))));
    }
    if value is Some {
        let found = value->Some_0@;
        law_every_filled_in_credential_is_used(snapshot, values, uri@, found);
        let j = choose|j: int|
            0 <= j < entries.len() && entries[j] == (uri@, crate::json::Json::String(found));
        assert(entries[j].0 == uri@);
    }
}

/// The snapshot that a host is asked to fill in has one entry for each reference, in their
/// order: the reference, as the string to be replaced, under itself.
pub proof fn law_snapshot_maps_references_to_themselves(uris: &Vec<String>, snapshot: JsonValue)
    requires
        call_ensures(credential_snapshot, (uris,), snapshot),
    ensures
        snapshot.model() matches crate::json::Json::Object(entries) && {
            &&& entries.len() == uris@.len()
            &&& forall|i: int|
                0 <= i < entries.len() ==> #[trigger] entries[i] == (
                    uris@[i]@,
                    crate::json::Json::String(uris@[i]@),
                )
        },
{
}

pub(crate) proof fn lemma_flattened_contains(lists: Seq<Vec<String>>, uri: Seq<char>)
    ensures
        flattened(lists).contains(uri) <==> exists|i: int, j: int|
            #![trigger lists[i]@[j]]
            0 <= i < lists.len() && 0 <= j < lists[i]@.len() && lists[i]@[j]@ == uri,
    decreases lists.len(),
{
    let all = flattened(lists);
    if lists.len() > 0 {
        let shorter = lists.drop_last();
        let before = flattened(shorter);
        let last = crate::text::texts(lists.last()@);
        lemma_flattened_contains(shorter, uri);
        if all.contains(uri) {
            let n = choose|n: int| 0 <= n < all.len() && all[n] == uri;
            if n < before.len() {
                assert(before[n] == uri);
                assert(before.contains(uri));
                let (i, j) = choose|i: int, j: int|
                    #![trigger shorter[i]@[j]]
                    0 <= i < shorter.len() && 0 <= j < shorter[i]@.len() && shorter[i]@[j]@ == uri;
                assert(lists[i]@[j]@ == uri);
            } else {
                let j = n - before.len();
                assert(last[j] == uri);
                assert(lists[lists.len() - 1]@[j]@ == uri);
            }
        }
        if exists|i: int, j: int|
            #![trigger lists[i]@[j]]
            0 <= i < lists.len() && 0 <= j < lists[i]@.len() && lists[i]@[j]@ == uri {
            let (i, j) = choose|i: int, j: int|
                #![trigger lists[i]@[j]]
                0 <= i < lists.len() && 0 <= j < lists[i]@.len() && lists[i]@[j]@ == uri;
            if i < shorter.len() {
                assert(shorter[i]@[j]@ == uri);
                assert(before.contains(uri));
                let n = choose|n: int| 0 <= n < before.len() && before[n] == uri;
                assert(all[n] == uri);
            } else {
                assert(last[j] == uri);
                assert(all[before.len() + j] == uri);
            }
        }
    }
}

/// The references of several templates are asked for once each: a reference is among them
/// exactly where a template has it, and none is there twice.
pub proof fn law_references_are_collected_once(template_refs: &Vec<Vec<String>>, uris: Vec<String>)
    requires
        call_ensures(credential_uris, (template_refs,), uris),
    ensures
        forall|uri: Seq<char>|
            (exists|n: int| 0 <= n < uris@.len() && (#[trigger] uris@[n])@ == uri) <==> (
            #[trigger] is_referred_to(template_refs@, uri)),
        forall|i: int, j: int|
            #![trigger uris@[i], uris@[j]]
            0 <= i < j < uris@.len() ==> uris@[i]@ != uris@[j]@,
{
    let all = crate::text::texts(uris@);
    assert forall|uri: Seq<char>|
        (exists|n: int| 0 <= n < uris@.len() && (#[trigger] uris@[n])@ == uri) <==> (
        #[trigger] is_referred_to(template_refs@, uri)) by {
        lemma_flattened_contains(template_refs@, uri);
        assert(all.contains(uri) <==> flattened(template_refs@).contains(uri));
        if all.contains(uri) {
            let n = choose|n: int| 0 <= n < all.len() && all[n] == uri;
            assert(uris@[n]@ == uri);
        }
        if exists|n: int| 0 <= n < uris@.len() && (#[trigger] uris@[n])@ == uri {
            let n = choose|n: int| 0 <= n < uris@.len() && (#[trigger] uris@[n])@ == uri;
            assert(all[n] == uri);
        }
    }
    let le = crate::sort::by_text();
    assert forall|i: int, j: int|
        #![trigger uris@[i], uris@[j]]
        0 <= i < j < uris@.len() implies uris@[i]@ != uris@[j]@ by {
        assert(le(all[i], all[j]) && !le(all[j], all[i]));
    }
}

/// Whether one of several lists of references holds a reference.
pub open spec fn is_referred_to(template_refs: Seq<Vec<String>>, uri: Seq<char>) -> bool {
    exists|i: int, j: int|
        #![trigger template_refs[i]@[j]]
        0 <= i < template_refs.len() && 0 <= j < template_refs[i]@.len() && template_refs[i]@[j]@
            == uri
}

/// A profile is marked as one with credentials exactly where the marker stands in its URL
/// or in one of its header values.
pub proof fn law_marker_is_found_anywhere(url: Seq<char>, headers: Seq<(Seq<char>, Seq<char>)>)
    ensures
        any_marker(url, headers) <==> (holds_text(url, "cred://"@) || exists|i: int|
            0 <= i < headers.len() && holds_text((#[trigger] headers[i]).1, "cred://"@)),
{
    lemma_marker(url);
    assert forall|i: int| 0 <= i < headers.len() implies has_marker((#[trigger] headers[i]).1)
        == holds_text(headers[i].1, "cred://"@) by {
        lemma_marker(headers[i].1);
    }
    if any_marker(url, headers) && !has_marker(url) {
        let i = choose|i: int| 0 <= i < headers.len() && has_marker((#[trigger] headers[i]).1);
        assert(holds_text(headers[i].1, "cred://"@));
    }
    if exists|i: int| 0 <= i < headers.len() && holds_text((#[trigger] headers[i]).1, "cred://"@) {
        let i = choose|i: int|
            0 <= i < headers.len() && holds_text((#[trigger] headers[i]).1, "cred://"@);
        assert(has_marker(headers[i].1));
    }
}

/// Whether `part` stands somewhere in `text`.
pub open spec fn holds_text(text: Seq<char>, part: Seq<char>) -> bool {
    exists|at: int|
        0 <= at && at + part.len() <= text.len() && #[trigger] text.subrange(at, at + part.len())
            == part
}

proof fn lemma_marker(text: Seq<char>)
    ensures
        has_marker(text) == holds_text(text, "cred://"@),
{
    let marker = "cred://"@;
    if has_marker(text) {
        crate::text::law_found_pattern_stands_there(text, marker);
        let at = crate::text::find(text, marker)->Some_0;
        assert(text.subrange(at, at + marker.len()) == marker);
    }
    if holds_text(text, marker) {
        let at = choose|at: int|
            0 <= at && at + marker.len() <= text.len() && #[trigger] text.subrange(
                at,
                at + marker.len(),
            ) == marker;
        crate::text::law_find_is_the_first_place(text, marker, at);
    }
}

proof fn lemma_header_refs_come_from_headers(
    headers: Seq<(Seq<char>, Seq<char>)>,
    key: (Seq<char>, Seq<char>),
)
    requires
        header_refs(headers).contains(key),
    ensures
        exists|i: int|
            0 <= i < headers.len() && crate::client_registry::cred_refs(
                (#[trigger] headers[i]).1,
            ).contains(key),
    decreases headers.len(),
{
    let refs = header_refs(headers);
    let n = choose|n: int| 0 <= n < refs.len() && refs[n] == key;
    let shorter = headers.drop_last();
    let before = header_refs(shorter);
    let last = crate::client_registry::cred_refs(headers.last().1);
    if n < before.len() {
        assert(before[n] == key);
        lemma_header_refs_come_from_headers(shorter, key);
        let i = choose|i: int|
            0 <= i < shorter.len() && crate::client_registry::cred_refs(
                (#[trigger] shorter[i]).1,
            ).contains(key);
        assert(headers[i] == shorter[i]);
    } else {
        assert(last[n - before.len()] == key);
        assert(crate::client_registry::cred_refs(headers[headers.len() - 1].1).contains(key));
    }
}

pub(crate) proof fn lemma_all_refs(
    url: Seq<char>,
    headers: Seq<(Seq<char>, Seq<char>)>,
    key: (Seq<char>, Seq<char>),
)
    ensures
        all_refs(url, headers).contains(key) <==> (crate::client_registry::cred_refs(url).contains(
            key,
        ) || exists|i: int|
            0 <= i < headers.len() && crate::client_registry::cred_refs(
                (#[trigger] headers[i]).1,
            ).contains(key)),
{
    let url_refs = crate::client_registry::cred_refs(url);
    let refs = all_refs(url, headers);
    if refs.contains(key) {
        let m = choose|m: int| 0 <= m < refs.len() && refs[m] == key;
        if m < url_refs.len() {
            assert(url_refs[m] == key);
        } else {
            assert(header_refs(headers)[m - url_refs.len()] == key);
            lemma_header_refs_come_from_headers(headers, key);
        }
    }
    if url_refs.contains(key) {
        let m = choose|m: int| 0 <= m < url_refs.len() && url_refs[m] == key;
        assert(refs[m] == key);
    }
    if exists|i: int|
        0 <= i < headers.len() && crate::client_registry::cred_refs(
            (#[trigger] headers[i]).1,
        ).contains(key) {
        let i = choose|i: int|
            0 <= i < headers.len() && crate::client_registry::cred_refs(
                (#[trigger] headers[i]).1,
            ).contains(key);
        lemma_header_refs_contain(headers, i, key);
        let found = header_refs(headers);
        let m = choose|m: int| 0 <= m < found.len() && found[m] == key;
        assert(refs[url_refs.len() + m] == key);
    }
}

/// The credential keys of a profile are those of the references in its URL and in each of
/// its header values: all of them, no others, and each once.
pub proof fn law_cred_keys_are_those_of_every_reference(
    url: &str,
    headers: &HeaderTable,
    keys: Vec<(String, String)>,
    key: (Seq<char>, Seq<char>),
)
    requires
        call_ensures(cred_keys_of, (url, headers), keys),
    ensures
        (exists|n: int|
            0 <= n < keys@.len() && (#[trigger] keys@[n]).0@ == key.0 && keys@[n].1@ == key.1) <==> (
        crate::client_registry::cred_refs(url@).contains(key) || exists|i: int|
            0 <= i < headers@.len() && crate::client_registry::cred_refs(
                (#[trigger] headers@[i]).1,
            ).contains(key)),
        forall|i: int, j: int|
            #![trigger keys@[i], keys@[j]]
            0 <= i < j < keys@.len() ==> keys@[i].0@ != keys@[j].0@ || keys@[i].1@ != keys@[j].1@,
{
    let pairs = crate::types::pairs_model(keys@);
    let le = crate::sort::by_both();
    assert forall|i: int, j: int|
        #![trigger keys@[i], keys@[j]]
        0 <= i < j < keys@.len() implies keys@[i].0@ != keys@[j].0@ || keys@[i].1@
        != keys@[j].1@ by {
        assert(le(pairs[i], pairs[j]) && !le(pairs[j], pairs[i]));
    }
    lemma_all_refs(url@, headers@, key);
    assert(pairs.contains(key) <==> all_refs(url@, headers@).contains(key));
    if pairs.contains(key) {
        let n = choose|n: int| 0 <= n < pairs.len() && pairs[n] == key;
        assert(keys@[n].0@ == key.0 && keys@[n].1@ == key.1);
    }
    if exists|n: int|
        0 <= n < keys@.len() && (#[trigger] keys@[n]).0@ == key.0 && keys@[n].1@ == key.1 {
        let n = choose|n: int|
            0 <= n < keys@.len() && (#[trigger] keys@[n]).0@ == key.0 && keys@[n].1@ == key.1;
        assert(pairs[n] == key);
    }
}

/// What a backend says about credentials that could not be resolved is passed on word for
/// word, and any other reason stands behind a word on what failed.
pub proof fn law_credential_failure_is_told(failure: CredentialFailure, message: String)
    requires
        call_ensures(credential_failure_message, (failure,), message),
    ensures
        failure matches CredentialFailure::Backend(cause) ==> message@ == cause@,
        failure matches CredentialFailure::Other(reason) ==> message@
            == "credential resolution: "@ + reason@,
{
}

} // verus!

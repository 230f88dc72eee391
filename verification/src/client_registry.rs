//! Per-credential client cache.
//!
//! Entries are keyed by a BLAKE3 digest of the resolved credential bundle (URL
//! and header values). The cache is bounded: it drops the entry that was used
//! longest ago when it overflows, entries that stay unused for too long, and
//! entries whose credential is revoked or whose secret rotates.
//!
//! Time comes in as milliseconds since some fixed start, and building a client
//! is the caller's work: [`ClientRegistry::get_or_build`] says when to do it.

use crate::text::{
    chars_of, ends_with, find_char, find_text, part_before, same_text, text_of, white_space,
};
use crate::types::fully_sorted_pairs;
use std::sync::Arc;
use vstd::prelude::*;
use vstd::slice::slice_subrange;

verus! {

/// 32-byte BLAKE3 digest of a resolved credential bundle.
pub type CredDigest = [u8; 32];

/// The BLAKE3 hash of `input`, 32 bytes.
pub uninterp spec fn blake3_hash(input: Seq<u8>) -> Seq<u8>;

/// Calls `blake3::hash`. The digest is a function of the bytes alone, the name
/// [`blake3_hash`].
#[verifier::external_body]
fn hash_bytes(input: &[u8]) -> (digest: CredDigest)
    ensures
        digest@ == blake3_hash(input@),
{
    blake3::hash(input).into()
}

/// The digest of a profile without credentials. It is the same for every call,
/// so all calls share one entry.
#[must_use]
pub fn static_digest() -> (digest: CredDigest)
    ensures
        digest@ == blake3_hash(vstd::utf8::encode_utf8("static"@)),
{
    hash_bytes("static".as_bytes())
}

/// The line that one field contributes to the hashed message.
pub open spec fn field_line(field: (Seq<char>, Seq<char>)) -> Seq<u8> {
    vstd::utf8::encode_utf8(field.0) + seq![61u8] + vstd::utf8::encode_utf8(field.1) + seq![10u8]
}

/// The lines of all fields, one after the other.
pub open spec fn field_lines(fields: Seq<(Seq<char>, Seq<char>)>) -> Seq<u8>
    decreases fields.len(),
{
    if fields.len() == 0 {
        Seq::empty()
    } else {
        field_lines(fields.drop_last()) + field_line(fields.last())
    }
}

/// The message that stands for a credential bundle: its fields sorted by name, and
/// by value where names are equal.
pub open spec fn bundle_message(fields: Seq<(Seq<char>, Seq<char>)>) -> Seq<u8> {
    field_lines(crate::sort::stable_sort(fields, crate::sort::by_both()))
}

fn append_bytes(message: &mut Vec<u8>, bytes: &[u8])
    ensures
        final(message)@ == old(message)@ + bytes@,
{
    let mut i: usize = 0;
    let ghost start = message@;
    assert(start + bytes@.take(0) =~= start);
    while i < bytes.len()
        invariant
            i <= bytes@.len(),
            message@ == start + bytes@.take(i as int),
        decreases bytes@.len() - i,
    {
        message.push(bytes[i]);
        assert(start + bytes@.take(i + 1) =~= (start + bytes@.take(i as int)).push(
            bytes@[i as int],
        ));
        i = i + 1;
    }
    assert(bytes@.take(i as int) =~= bytes@);
}

/// The digest of a credential bundle, given as `(field, value)` pairs in any order.
#[must_use]
pub fn digest_credential_bundle(pairs: &[(String, String)]) -> (digest: CredDigest)
    ensures
        digest@ == blake3_hash(bundle_message(crate::types::pairs_model(pairs@))),
{
    let ordered = fully_sorted_pairs(pairs);
    let ghost lines = crate::types::pairs_model(ordered@);
    let mut message: Vec<u8> = Vec::new();
    let mut n: usize = 0;
    assert(lines.take(0) =~= Seq::empty());
    while n < ordered.len()
        invariant
            n <= ordered@.len(),
            lines == crate::types::pairs_model(ordered@),
            message@ == field_lines(lines.take(n as int)),
        decreases ordered@.len() - n,
    {
        let pair = &ordered[n];
        let ghost so_far = message@;
        append_bytes(&mut message, pair.0.as_str().as_bytes());
        message.push(61);
        append_bytes(&mut message, pair.1.as_str().as_bytes());
        message.push(10);
        assert(lines.take(n + 1).drop_last() =~= lines.take(n as int));
        assert(lines.take(n + 1).last() == (pair.0@, pair.1@));
        assert(message@ =~= so_far + field_line((pair.0@, pair.1@)));
        n = n + 1;
    }
    assert(lines.take(n as int) =~= lines);
    hash_bytes(message.as_slice())
}

/// The digest of a bundle does not depend on the order in which its fields are
/// given.
pub proof fn law_digest_ignores_order(
    a: Seq<(Seq<char>, Seq<char>)>,
    b: Seq<(Seq<char>, Seq<char>)>,
)
    requires
        a.to_multiset() == b.to_multiset(),
    ensures
        blake3_hash(bundle_message(a)) == blake3_hash(bundle_message(b)),
{
    crate::sort::lemma_by_both_linear();
    crate::sort::law_linear_sort_ignores_order(a, b, crate::sort::by_both());
}

/// The characters that end the target of a `cred://` reference.
pub open spec fn ends_target(c: char) -> bool {
    ||| crate::text::is_white_space(c)
    ||| c == '?'
    ||| c == '&'
    ||| c == '@'
    ||| c == ':'
    ||| c == '"'
    ||| c == '\''
    ||| c == '>'
    ||| c == ','
    ||| c == ';'
    ||| c == '}'
}

/// The number of characters of `text` before the first that ends a target.
pub open spec fn target_length(text: Seq<char>) -> int
    decreases text.len(),
{
    if text.len() == 0 || ends_target(text.first()) {
        0
    } else {
        1 + target_length(text.drop_first())
    }
}

/// What [`target_length`] means.
pub proof fn lemma_target_length(text: Seq<char>)
    ensures
        0 <= target_length(text) <= text.len(),
        forall|i: int| 0 <= i < target_length(text) ==> !ends_target(#[trigger] text[i]),
        target_length(text) < text.len() ==> ends_target(text[target_length(text)]),
    decreases text.len(),
{
    if text.len() > 0 && !ends_target(text.first()) {
        let rest = text.drop_first();
        lemma_target_length(rest);
        assert forall|i: int| 0 <= i < target_length(text) implies !ends_target(
            #[trigger] text[i],
        ) by {
            if i > 0 {
                assert(text[i] == rest[i - 1]);
            }
        }
        if target_length(text) < text.len() {
            assert(text[target_length(text)] == rest[target_length(rest)]);
        }
    }
}

/// Computes [`target_length`].
fn target_end(text: &[char]) -> (end: usize)
    ensures
        end == target_length(text@),
        end <= text@.len(),
{
    let mut i: usize = 0;
    assert(text@.skip(0) =~= text@);
    while i < text.len()
        invariant
            i <= text@.len(),
            target_length(text@) == i + target_length(text@.skip(i as int)),
        decreases text@.len() - i,
    {
        let c = text[i];
        if white_space(c) || c == '?' || c == '&' || c == '@' || c == ':' || c == '"' || c == '\''
            || c == '>' || c == ',' || c == ';' || c == '}' {
            return i;
        }
        assert(text@.skip(i as int).drop_first() =~= text@.skip(i + 1));
        i = i + 1;
    }
    i
}

/// The `(plugin_id, target)` pair of the reference whose marker stands right
/// before `after`. The plugin id runs up to the first slash. The target runs up to
/// white space or a delimiter, and what follows a `#` in it is left out. There is
/// no pair where one of the two is empty or there is no slash, or where the slash
/// is that of a further marker.
pub open spec fn reference(after: Seq<char>) -> Option<(Seq<char>, Seq<char>)> {
    let slash = crate::text::char_index(after, '/');
    let plugin_id = after.take(slash);
    let rest = after.skip(slash + 1);
    let target = crate::text::before(rest.take(target_length(rest)), '#');
    if slash < after.len() && plugin_id.len() > 0 && target.len() > 0 && !(
    "cred:"@.is_suffix_of(plugin_id) && target.first() == '/') {
        Some((plugin_id, target))
    } else {
        None
    }
}

/// The pairs of the `cred://plugin_id/target` references in `text`, one for each
/// marker that has one, in order.
pub open spec fn cred_refs(text: Seq<char>) -> Seq<(Seq<char>, Seq<char>)>
    decreases text.len(),
{
    if text.len() == 0 {
        Seq::empty()
    } else {
        refs_at_start(text) + cred_refs(text.drop_first())
    }
}

/// The pair of the reference that `text` starts with, where it starts with one.
pub open spec fn refs_at_start(text: Seq<char>) -> Seq<(Seq<char>, Seq<char>)> {
    if "cred://"@.is_prefix_of(text) {
        match reference(text.skip("cred://"@.len() as int)) {
            Some(pair) => seq![pair],
            None => Seq::empty(),
        }
    } else {
        Seq::empty()
    }
}

/// There is no reference before the first marker, and none without a marker.
pub proof fn lemma_refs_from_first_marker(text: Seq<char>)
    ensures
        match crate::text::find(text, "cred://"@) {
            Some(at) => cred_refs(text) == cred_refs(text.skip(at)),
            None => cred_refs(text).len() == 0,
        },
    decreases text.len(),
{
    if "cred://"@.is_prefix_of(text) {
        assert(text.skip(0) =~= text);
    } else if text.len() > 0 {
        let rest = text.drop_first();
        lemma_refs_from_first_marker(rest);
        crate::text::lemma_find_bounds(rest, "cred://"@);
        assert(cred_refs(text) =~= cred_refs(rest));
        if crate::text::find(rest, "cred://"@) is Some {
            let at = crate::text::find(rest, "cred://"@)->Some_0;
            assert(text.skip(at + 1) =~= rest.skip(at));
        }
    }
}

/// Computes [`reference`].
fn reference_of(after: &[char]) -> (pair: Option<(String, String)>)
    ensures
        match pair {
            Some(pair) => reference(after@) == Some((pair.0@, pair.1@)),
            None => reference(after@) is None,
        },
{
    let slash = find_char(after, '/');
    if slash >= after.len() {
        return None;
    }
    let plugin_id = slice_subrange(after, 0, slash);
    let rest = slice_subrange(after, slash + 1, after.len());
    let whole_target = slice_subrange(rest, 0, target_end(rest));
    let target = part_before(whole_target, '#');
    assert(plugin_id@ =~= after@.take(slash as int));
    assert(rest@ =~= after@.skip(slash + 1));
    assert(whole_target@ =~= rest@.take(target_length(rest@)));
    if plugin_id.len() == 0 || target.len() == 0 || (ends_with(plugin_id, "cred:") && target[0]
        == '/') {
        return None;
    }
    Some((text_of(plugin_id), text_of(target)))
}

/// Extracts the `(plugin_id, target)` pair of every `cred://` reference in
/// `text`; `None` where there is none.
pub fn collect_cred_refs(text: &str) -> (refs: Option<Vec<(String, String)>>)
    ensures
        match refs {
            Some(found) => found@.len() > 0 && crate::types::pairs_model(found@) == cred_refs(
                text@,
            ),
            None => cred_refs(text@).len() == 0,
        },
{
    let chars = chars_of(text);
    let marker = chars_of("cred://");
    let mut out: Vec<(String, String)> = Vec::new();
    let mut start: usize = 0;
    let mut more = true;
    proof {
        reveal_strlit("cred://");
        assert(chars@.skip(0) =~= chars@);
        assert(crate::types::pairs_model(out@) =~= Seq::empty());
        assert(cred_refs(text@) =~= crate::types::pairs_model(out@) + cred_refs(chars@.skip(0)));
    }
    while more
        invariant
            start <= chars@.len(),
            marker@ == "cred://"@,
            "cred://"@.len() > 0,
            more ==> cred_refs(text@) == crate::types::pairs_model(out@) + cred_refs(
                chars@.skip(start as int),
            ),
            !more ==> cred_refs(text@) == crate::types::pairs_model(out@),
        decreases (if more { 1int } else { 0int }), chars@.len() - start,
    {
        let ghost so_far = crate::types::pairs_model(out@);
        let rest = slice_subrange(chars.as_slice(), start, chars.len());
        assert(rest@ =~= chars@.skip(start as int));
        proof {
            lemma_refs_from_first_marker(rest@);
        }
        match find_text(rest, "cred://") {
            None => {
                assert(so_far + cred_refs(rest@) =~= so_far);
                more = false;
            },
            Some(at) => {
                let after = slice_subrange(rest, at + marker.len(), rest.len());
                let ghost from = rest@.skip(at as int);
                proof {
                    lemma_found_is_prefix(rest@, "cred://"@);
                    assert(after@ =~= from.skip("cred://"@.len() as int));
                    assert(from.drop_first() =~= chars@.skip(start + at + 1));
                }
                match reference_of(after) {
                    Some(pair) => {
                        out.push(pair);
                        assert(crate::types::pairs_model(out@) =~= so_far + refs_at_start(from));
                    },
                    None => {
                        assert(so_far =~= so_far + refs_at_start(from));
                    },
                }
                start = start + at + 1;
                assert(cred_refs(text@) =~= crate::types::pairs_model(out@) + cred_refs(
                    chars@.skip(start as int),
                ));
            },
        }
    }
    if out.len() == 0 {
        None
    } else {
        Some(out)
    }
}

proof fn lemma_found_is_prefix(text: Seq<char>, pattern: Seq<char>)
    ensures
        crate::text::find(text, pattern) matches Some(at) ==> 0 <= at && at + pattern.len()
            <= text.len() && pattern.is_prefix_of(text.skip(at)),
    decreases text.len(),
{
    if pattern.is_prefix_of(text) {
        assert(text.skip(0) =~= text);
    } else if text.len() > 0 {
        lemma_found_is_prefix(text.drop_first(), pattern);
        if crate::text::find(text.drop_first(), pattern) is Some {
            let at = crate::text::find(text.drop_first(), pattern)->Some_0;
            assert(text.skip(at + 1) =~= text.drop_first().skip(at));
        }
    }
}

/// Every reference that [`cred_refs`] finds has a plugin id without a slash and
/// a target without delimiters, white space or `#`, and neither is empty.
pub proof fn law_cred_refs_are_well_formed(text: Seq<char>, n: int)
    requires
        0 <= n < cred_refs(text).len(),
    ensures
        cred_refs(text)[n].0.len() > 0,
        !cred_refs(text)[n].0.contains('/'),
        cred_refs(text)[n].1.len() > 0,
        !cred_refs(text)[n].1.contains('#'),
        forall|i: int|
            0 <= i < cred_refs(text)[n].1.len() ==> !ends_target(
                #[trigger] cred_refs(text)[n].1[i],
            ),
    decreases text.len(),
{
    let found = refs_at_start(text);
    if n < found.len() {
        let after = text.skip("cred://"@.len() as int);
        let slash = crate::text::char_index(after, '/');
        let rest = after.skip(slash + 1);
        let whole = rest.take(target_length(rest));
        crate::text::lemma_char_index(after, '/');
        lemma_target_length(rest);
        crate::text::lemma_char_index(whole, '#');
        let (plugin_id, target) = reference(after)->Some_0;
        assert(cred_refs(text)[n] == (plugin_id, target));
        assert forall|i: int| 0 <= i < plugin_id.len() implies #[trigger] plugin_id[i] != '/' by {
            assert(plugin_id[i] == after[i]);
        }
        assert forall|i: int| 0 <= i < target.len() implies #[trigger] target[i] != '#'
            && !ends_target(target[i]) by {
            assert(target[i] == whole[i]);
            assert(whole[i] == rest[i]);
        }
    } else {
        law_cred_refs_are_well_formed(text.drop_first(), n - found.len());
        assert(cred_refs(text)[n] == cred_refs(text.drop_first())[n - found.len()]);
    }
}

/// Whether `plugin_id` and `target` can be read back from the reference that they
/// make: neither is empty, the plugin id has no slash, the target has no `#` and
/// nothing that ends a target, and the slash between them is not that of a
/// further marker.
pub open spec fn makes_reference(plugin_id: Seq<char>, target: Seq<char>) -> bool {
    &&& plugin_id.len() > 0
    &&& !plugin_id.contains('/')
    &&& target.len() > 0
    &&& !target.contains('#')
    &&& forall|i: int| 0 <= i < target.len() ==> !ends_target(#[trigger] target[i])
    &&& !("cred:"@.is_suffix_of(plugin_id) && target.first() == '/')
}

/// The reference to a target of a plugin.
pub open spec fn reference_text(plugin_id: Seq<char>, target: Seq<char>) -> Seq<char> {
    "cred://"@ + plugin_id + "/"@ + target
}

proof fn lemma_reference_is_read(plugin_id: Seq<char>, target: Seq<char>, behind: Seq<char>)
    requires
        makes_reference(plugin_id, target),
        behind.len() > 0 ==> ends_target(behind.first()) || behind.first() == '#',
    ensures
        reference(plugin_id + "/"@ + target + behind) == Some((plugin_id, target)),
{
    let after = plugin_id + "/"@ + target + behind;
    let rest = target + behind;
    reveal_strlit("/");
    assert("/"@ =~= seq!['/']);
    assert(after =~= plugin_id + seq!['/'] + rest);
    crate::text::lemma_first_separator(plugin_id, '/', rest);
    let end = target_length(rest);
    lemma_target_length(rest);
    if end < target.len() {
        assert(rest[end] == target[end]);
    }
    let whole = rest.take(end);
    let place = crate::text::char_index(whole, '#');
    crate::text::lemma_char_index(whole, '#');
    if place < target.len() {
        assert(whole[place] == target[place]);
        assert(place < whole.len());
        assert(target.contains('#'));
    } else if place > target.len() {
        assert(whole[target.len() as int] == behind[0]);
        assert(rest[target.len() as int] == behind[0]);
        assert(!ends_target(rest[target.len() as int]));
    }
    assert(whole.take(place) =~= target);
    assert(after.take(plugin_id.len() as int) =~= plugin_id);
    assert(after.skip(plugin_id.len() + 1int) =~= rest);
}

/// Every reference in a text is found: wherever one stands, and whatever stands
/// before it, its pair is among those of the text.
#[verifier::rlimit(50)]
pub proof fn law_every_reference_is_found(
    before: Seq<char>,
    plugin_id: Seq<char>,
    target: Seq<char>,
    behind: Seq<char>,
)
    requires
        makes_reference(plugin_id, target),
        behind.len() > 0 ==> ends_target(behind.first()) || behind.first() == '#',
    ensures
        cred_refs(before + reference_text(plugin_id, target) + behind).contains(
            (plugin_id, target),
        ),
    decreases before.len(),
{
    let text = before + reference_text(plugin_id, target) + behind;
    let pair = (plugin_id, target);
    reveal_strlit("cred://");
    if before.len() == 0 {
        let after = plugin_id + "/"@ + target + behind;
        assert(text =~= "cred://"@ + after);
        assert(text.skip("cred://"@.len() as int) =~= after);
        assert("cred://"@.is_prefix_of(text));
        lemma_reference_is_read(plugin_id, target, behind);
        assert(cred_refs(text)[0] == pair);
    } else {
        let rest = before.drop_first() + reference_text(plugin_id, target) + behind;
        assert(text.drop_first() =~= rest);
        law_every_reference_is_found(before.drop_first(), plugin_id, target, behind);
        let i = choose|i: int| 0 <= i < cred_refs(rest).len() && cred_refs(rest)[i] == pair;
        assert(cred_refs(text)[refs_at_start(text).len() + i] == pair);
    }
}

/// `reqwest::Client`, kept and handed out without being looked at.
#[verifier::external_type_specification]
#[verifier::external_body]
pub struct ExReqwestClient(reqwest::Client);

/// A client that several calls share.
pub type SharedClient = Arc<reqwest::Client>;

/// The bounds of a [`ClientRegistry`].
#[derive(Debug, Clone, Copy)]
pub struct ClientRegistryConfig {
    /// The number of clients that are kept.
    pub max_entries: usize,
    /// How long an unused client is kept, in milliseconds.
    pub idle_eviction_ms: u64,
}

impl Default for ClientRegistryConfig {
    fn default() -> (config: Self)
        ensures
            config.max_entries == 256,
            config.idle_eviction_ms == 15 * 60 * 1000,
    {
        ClientRegistryConfig { max_entries: 256, idle_eviction_ms: 900_000 }
    }
}

struct ClientEntry {
    digest: CredDigest,
    client: SharedClient,
    cred_keys: Vec<(String, String)>,
    last_used: u64,
}

/// What a registry knows of one client.
pub ghost struct CachedClient {
    /// The client.
    pub client: SharedClient,
    /// The `(plugin_id, target)` pairs whose revocation drops the client.
    pub cred_keys: Seq<(Seq<char>, Seq<char>)>,
    /// When the client was last handed out, in milliseconds.
    pub last_used: u64,
}

/// The clients of a registry, by digest.
pub type Clients = Map<Seq<u8>, CachedClient>;

/// Bounded per-credential client cache.
pub struct ClientRegistry {
    entries: Vec<ClientEntry>,
    config: ClientRegistryConfig,
}

/// What happened to a request for a client.
pub enum BuildEvent {
    /// A call asks for the client.
    Requested,
    /// A client was built for the call, with the credentials that it holds.
    Built {
        /// The new client.
        client: SharedClient,
        /// The `(plugin_id, target)` pairs behind its credentials.
        cred_keys: Vec<(String, String)>,
    },
    /// The client could not be built.
    BuildFailed(String),
}

/// What to do about a request for a client.
pub enum BuildAction {
    /// Use this client.
    Use {
        /// The client.
        client: SharedClient,
        /// Whether another client had to go to make room.
        evicted: bool,
    },
    /// Build a client and report back.
    Build,
    /// Give up, with this message.
    Fail(String),
}

spec fn cached(entry: ClientEntry) -> CachedClient {
    CachedClient {
        client: entry.client,
        cred_keys: crate::types::pairs_model(entry.cred_keys@),
        last_used: entry.last_used,
    }
}

spec fn clients_of(entries: Seq<ClientEntry>) -> Clients
    decreases entries.len(),
{
    if entries.len() == 0 {
        Map::empty()
    } else {
        clients_of(entries.drop_last()).insert(
            entries.last().digest@,
            cached(entries.last()),
        )
    }
}

spec fn distinct_digests(entries: Seq<ClientEntry>) -> bool {
    forall|i: int, j: int|
        #![trigger entries[i].digest, entries[j].digest]
        0 <= i < j < entries.len() ==> entries[i].digest@ != entries[j].digest@
}

proof fn lemma_clients_of(entries: Seq<ClientEntry>)
    requires
        distinct_digests(entries),
    ensures
        forall|i: int|
            #![trigger entries[i]]
            0 <= i < entries.len() ==> clients_of(entries).contains_key(entries[i].digest@)
                && clients_of(entries)[entries[i].digest@] == cached(entries[i]),
        forall|digest: Seq<u8>| #[trigger]
            clients_of(entries).contains_key(digest) ==> exists|i: int|
                0 <= i < entries.len() && #[trigger] entries[i].digest@ == digest,
        clients_of(entries).dom().finite(),
        clients_of(entries).len() == entries.len(),
    decreases entries.len(),
{
    if entries.len() > 0 {
        let shorter = entries.drop_last();
        let last = entries.last();
        assert(distinct_digests(shorter)) by {
            assert forall|i: int, j: int|
                #![trigger shorter[i].digest, shorter[j].digest]
                0 <= i < j < shorter.len() implies shorter[i].digest@ != shorter[j].digest@ by {
                assert(entries[i].digest@ != entries[j].digest@);
            }
        }
        lemma_clients_of(shorter);
        if clients_of(shorter).contains_key(last.digest@) {
            let i = choose|i: int|
                0 <= i < shorter.len() && #[trigger] shorter[i].digest@ == last.digest@;
            assert(entries[i].digest@ != entries[entries.len() - 1].digest@);
        }
        assert forall|i: int| #![trigger entries[i]] 0 <= i < entries.len() implies clients_of(
            entries,
        ).contains_key(entries[i].digest@) && clients_of(entries)[entries[i].digest@] == cached(
            entries[i],
        ) by {
            if i < shorter.len() {
                assert(shorter[i] == entries[i]);
                assert(entries[i].digest@ != entries[entries.len() - 1].digest@);
            }
        }
        assert forall|digest: Seq<u8>| #[trigger]
            clients_of(entries).contains_key(digest) implies exists|i: int|
            0 <= i < entries.len() && #[trigger] entries[i].digest@ == digest by {
            if digest == last.digest@ {
                assert(entries[entries.len() - 1].digest@ == digest);
            } else {
                assert(clients_of(shorter).contains_key(digest));
                let i = choose|i: int|
                    0 <= i < shorter.len() && #[trigger] shorter[i].digest@ == digest;
                assert(entries[i].digest@ == digest);
            }
        }
    }
}

fn same_digest(a: &CredDigest, b: &CredDigest) -> (same: bool)
    ensures
        same == (a@ == b@),
{
    let mut i: usize = 0;
    while i < 32
        invariant
            i <= 32,
            forall|j: int| 0 <= j < i ==> a@[j] == b@[j],
        decreases 32 - i,
    {
        if a[i] != b[i] {
            return false;
        }
        i = i + 1;
    }
    assert(a@ =~= b@);
    true
}

/// `clients` with one of them marked as used at `now`.
pub open spec fn touched(clients: Clients, digest: Seq<u8>, now: u64) -> Clients {
    clients.insert(digest, CachedClient { last_used: now, ..clients[digest] })
}

/// Whether no client was used longer ago than the one under `digest`.
pub open spec fn is_oldest(clients: Clients, digest: Seq<u8>) -> bool {
    &&& clients.contains_key(digest)
    &&& forall|other: Seq<u8>| #[trigger]
        clients.contains_key(other) ==> clients[digest].last_used <= clients[other].last_used
}

/// `clients` without those that `drops` names.
pub open spec fn without(clients: Clients, drops: spec_fn(CachedClient) -> bool) -> Clients {
    Map::new(
        |digest: Seq<u8>| clients.contains_key(digest) && !drops(clients[digest]),
        |digest: Seq<u8>| clients[digest],
    )
}

/// Names the clients that hold the credential `(plugin_id, target)`.
pub open spec fn holds_credential(plugin_id: Seq<char>, target: Seq<char>) -> spec_fn(
    CachedClient,
) -> bool {
    |client: CachedClient| client.cred_keys.contains((plugin_id, target))
}

/// Names the clients that at `now` were last used more than `limit`
/// milliseconds ago.
pub open spec fn is_idle(now: u64, limit: u64) -> spec_fn(CachedClient) -> bool {
    |client: CachedClient| now - client.last_used > limit
}

/// What [`ClientRegistry::get_or_build`] does on an event: which action it asks
/// for, and which clients the registry then holds.
pub open spec fn follows(
    before: Clients,
    max_entries: usize,
    digest: Seq<u8>,
    event: BuildEvent,
    now: u64,
    action: BuildAction,
    after: Clients,
) -> bool {
    match event {
        BuildEvent::Requested => if before.contains_key(digest) {
            &&& action == (BuildAction::Use { client: before[digest].client, evicted: false })
            &&& after == touched(before, digest, now)
        } else {
            &&& action == BuildAction::Build
            &&& after == before
        },
        BuildEvent::BuildFailed(message) => {
            &&& action == BuildAction::Fail(message)
            &&& after == before
        },
        BuildEvent::Built { client, cred_keys } => if before.contains_key(digest) {
            &&& action == (BuildAction::Use { client: before[digest].client, evicted: false })
            &&& after == touched(before, digest, now)
        } else {
            let full = before.insert(
                digest,
                CachedClient {
                    client,
                    cred_keys: crate::types::pairs_model(cred_keys@),
                    last_used: now,
                },
            );
            &&& action == (BuildAction::Use { client, evicted: full.len() > max_entries })
            &&& if full.len() > max_entries {
                exists|gone: Seq<u8>| #[trigger] is_oldest(full, gone) && after == full.remove(gone)
            } else {
                after == full
            }
        },
    }
}

/// Why clients are dropped.
enum Cause<'a> {
    /// A credential was revoked.
    Revoked { plugin_id: &'a str, target: &'a str },
    /// They were unused for longer than `limit` milliseconds.
    Idle { now: u64, limit: u64 },
}

impl<'a> Cause<'a> {
    spec fn drops(&self) -> spec_fn(CachedClient) -> bool {
        match self {
            Cause::Revoked { plugin_id, target } => holds_credential(plugin_id@, target@),
            Cause::Idle { now, limit } => is_idle(*now, *limit),
        }
    }

    fn covers(&self, entry: &ClientEntry) -> (yes: bool)
        ensures
            yes == (self.drops())(cached(*entry)),
    {
        match self {
            Cause::Revoked { plugin_id, target } => {
                let ghost keys = crate::types::pairs_model(entry.cred_keys@);
                let mut i: usize = 0;
                while i < entry.cred_keys.len()
                    invariant
                        i <= entry.cred_keys@.len(),
                        keys == crate::types::pairs_model(entry.cred_keys@),
                        self.drops() == holds_credential(plugin_id@, target@),
                        forall|j: int| 0 <= j < i ==> #[trigger] keys[j] != (plugin_id@, target@),
                    decreases entry.cred_keys@.len() - i,
                {
                    let key = &entry.cred_keys[i];
                    if same_text(key.0.as_str(), plugin_id) && same_text(key.1.as_str(), target) {
                        assert(keys[i as int] == (plugin_id@, target@));
                        assert(cached(*entry).cred_keys.contains((plugin_id@, target@)));
                        return true;
                    }
                    assert(keys[i as int] == (key.0@, key.1@));
                    i = i + 1;
                }
                false
            },
            Cause::Idle { now, limit } => *now > entry.last_used && *now - entry.last_used > *limit,
        }
    }
}

fn oldest(entries: &Vec<ClientEntry>) -> (place: usize)
    requires
        distinct_digests(entries@),
        entries@.len() > 0,
    ensures
        place < entries@.len(),
        is_oldest(clients_of(entries@), entries@[place as int].digest@),
{
    let mut place: usize = 0;
    let mut i: usize = 1;
    while i < entries.len()
        invariant
            i <= entries@.len(),
            place < i,
            forall|j: int|
                0 <= j < i ==> entries@[place as int].last_used <= (
                #[trigger] entries@[j]).last_used,
        decreases entries@.len() - i,
    {
        if entries[i].last_used < entries[place].last_used {
            place = i;
        }
        i = i + 1;
    }
    proof {
        let clients = clients_of(entries@);
        lemma_clients_of(entries@);
        let digest = entries@[place as int].digest@;
        assert forall|other: Seq<u8>| #[trigger]
            clients.contains_key(other) implies clients[digest].last_used
            <= clients[other].last_used by {
            let j = choose|j: int|
                0 <= j < entries@.len() && #[trigger] entries@[j].digest@ == other;
            assert(clients[other] == cached(entries@[j]));
        }
    }
    place
}

proof fn lemma_one_changed(before: Seq<ClientEntry>, after: Seq<ClientEntry>, place: int)
    requires
        distinct_digests(before),
        distinct_digests(after),
        0 <= place < before.len(),
        after.len() == before.len(),
        after[place].digest@ == before[place].digest@,
        forall|i: int| 0 <= i < before.len() && i != place ==> after[i] == #[trigger] before[i],
    ensures
        clients_of(after) == clients_of(before).insert(
            before[place].digest@,
            cached(after[place]),
        ),
{
    lemma_clients_of(before);
    lemma_clients_of(after);
    let digest = before[place].digest@;
    let expected = clients_of(before).insert(digest, cached(after[place]));
    assert(clients_of(after).contains_key(after[place].digest@));
    assert forall|other: Seq<u8>| #[trigger]
        clients_of(after).contains_key(other) implies expected.contains_key(other)
        && clients_of(after)[other] == expected[other] by {
        let i = choose|i: int| 0 <= i < after.len() && #[trigger] after[i].digest@ == other;
        assert(clients_of(after)[other] == cached(after[i]));
        if i != place {
            assert(after[i] == before[i]);
            assert(other != digest);
        }
    }
    assert forall|other: Seq<u8>| #[trigger]
        expected.contains_key(other) implies clients_of(after).contains_key(other) by {
        if other != digest {
            let i = choose|i: int| 0 <= i < before.len() && #[trigger] before[i].digest@ == other;
            assert(after[i] == before[i]);
        }
    }
    assert(clients_of(after) =~= expected);
}

proof fn lemma_removed(entries: Seq<ClientEntry>, place: int)
    requires
        distinct_digests(entries),
        0 <= place < entries.len(),
    ensures
        distinct_digests(entries.remove(place)),
        clients_of(entries.remove(place)) == clients_of(entries).remove(entries[place].digest@),
{
    let rest = entries.remove(place);
    let digest = entries[place].digest@;
    assert(distinct_digests(rest)) by {
        assert forall|i: int, j: int|
            #![trigger rest[i].digest, rest[j].digest]
            0 <= i < j < rest.len() implies rest[i].digest@ != rest[j].digest@ by {
            let old_i = if i < place { i } else { i + 1 };
            let old_j = if j < place { j } else { j + 1 };
            assert(entries[old_i].digest@ != entries[old_j].digest@);
        }
    }
    lemma_clients_of(entries);
    lemma_clients_of(rest);
    let expected = clients_of(entries).remove(digest);
    assert forall|other: Seq<u8>| #[trigger]
        clients_of(rest).contains_key(other) implies expected.contains_key(other)
        && clients_of(rest)[other] == expected[other] by {
        let i = choose|i: int| 0 <= i < rest.len() && #[trigger] rest[i].digest@ == other;
        assert(clients_of(rest)[other] == cached(rest[i]));
        let old_i = if i < place { i } else { i + 1 };
        assert(rest[i] == entries[old_i]);
        if old_i < place {
            assert(entries[old_i].digest@ != entries[place].digest@);
        } else {
            assert(entries[place].digest@ != entries[old_i].digest@);
        }
    }
    assert forall|other: Seq<u8>| #[trigger]
        expected.contains_key(other) implies clients_of(rest).contains_key(other) by {
        let i = choose|i: int| 0 <= i < entries.len() && #[trigger] entries[i].digest@ == other;
        let new_i = if i < place { i } else { i - 1 };
        assert(rest[new_i] == entries[i]);
    }
    assert(clients_of(rest) =~= expected);
}

impl ClientRegistry {
    /// The clients of this registry, by digest.
    pub closed spec fn clients(&self) -> Clients {
        clients_of(self.entries@)
    }

    /// The bounds of this registry.
    pub closed spec fn config(&self) -> ClientRegistryConfig {
        self.config
    }

    /// Every digest has one client, and there are no more clients than the
    /// registry may hold.
    pub closed spec fn well_formed(&self) -> bool {
        &&& distinct_digests(self.entries@)
        &&& self.entries@.len() <= self.config.max_entries
    }

    /// A registry without clients.
    #[must_use]
    pub fn new(config: ClientRegistryConfig) -> (registry: Self)
        ensures
            registry.well_formed(),
            registry.clients() == Clients::empty(),
            registry.config() == config,
    {
        ClientRegistry { entries: Vec::new(), config }
    }

    /// The number of clients.
    pub fn len(&self) -> (count: usize)
        requires
            self.well_formed(),
        ensures
            count == self.clients().len(),
            self.clients().dom().finite(),
            count <= self.config().max_entries,
    {
        proof {
            lemma_clients_of(self.entries@);
        }
        self.entries.len()
    }

    fn position(&self, digest: &CredDigest) -> (place: Option<usize>)
        requires
            self.well_formed(),
        ensures
            match place {
                Some(at) => at < self.entries@.len() && self.entries@[at as int].digest@ == digest@
                    && self.clients().contains_key(digest@),
                None => !self.clients().contains_key(digest@),
            },
    {
        proof {
            lemma_clients_of(self.entries@);
        }
        let mut i: usize = 0;
        while i < self.entries.len()
            invariant
                i <= self.entries@.len(),
                self.well_formed(),
                forall|j: int| 0 <= j < i ==> (#[trigger] self.entries@[j]).digest@ != digest@,
            decreases self.entries@.len() - i,
        {
            if same_digest(&self.entries[i].digest, digest) {
                proof {
                    lemma_clients_of(self.entries@);
                }
                return Some(i);
            }
            i = i + 1;
        }
        proof {
            if self.clients().contains_key(digest@) {
                let j = choose|j: int|
                    0 <= j < self.entries@.len() && #[trigger] self.entries@[j].digest@ == digest@;
                assert(self.entries@[j].digest@ != digest@);
            }
        }
        None
    }

    fn touch(&mut self, place: usize, now_millis: u64) -> (client: SharedClient)
        requires
            old(self).well_formed(),
            place < old(self).entries@.len(),
        ensures
            final(self).well_formed(),
            final(self).config() == old(self).config(),
            final(self).clients() == touched(
                old(self).clients(),
                old(self).entries@[place as int].digest@,
                now_millis,
            ),
            client == old(self).clients()[old(self).entries@[place as int].digest@].client,
    {
        let ghost before = self.entries@;
        self.entries[place].last_used = now_millis;
        proof {
            let after = self.entries@;
            assert(distinct_digests(after)) by {
                assert forall|i: int, j: int|
                    #![trigger after[i].digest, after[j].digest]
                    0 <= i < j < after.len() implies after[i].digest@ != after[j].digest@ by {
                    assert(before[i].digest@ != before[j].digest@);
                }
            }
            lemma_clients_of(before);
            lemma_clients_of(after);
            lemma_one_changed(before, after, place as int);
        }
        Arc::clone(&self.entries[place].client)
    }

    /// Looks up the client for a credential bundle, or has it built.
    ///
    /// A call starts with [`BuildEvent::Requested`]: a client that is there is
    /// marked as used and handed out, else the caller is told to build one. The
    /// caller then reports the outcome. By then another call may have stored a
    /// client: that one is used and the new one dropped. Else the new client is
    /// stored; where that is one too many, a client goes that no other was used
    /// longer ago than.
    ///
    /// Callers that keep the registry to themselves from the request to the report
    /// build one client for a digest, however many of them there are.
    pub fn get_or_build(
        &mut self,
        digest: CredDigest,
        event: BuildEvent,
        now_millis: u64,
    ) -> (action: BuildAction)
        requires
            old(self).well_formed(),
        ensures
            final(self).well_formed(),
            final(self).config() == old(self).config(),
            follows(
                old(self).clients(),
                old(self).config().max_entries,
                digest@,
                event,
                now_millis,
                action,
                final(self).clients(),
            ),
    {
        match event {
            BuildEvent::Requested => match self.position(&digest) {
                Some(place) => {
                    let client = self.touch(place, now_millis);
                    BuildAction::Use { client, evicted: false }
                },
                None => BuildAction::Build,
            },
            BuildEvent::BuildFailed(message) => BuildAction::Fail(message),
            BuildEvent::Built { client, cred_keys } => match self.position(&digest) {
                Some(place) => {
                    let stored = self.touch(place, now_millis);
                    BuildAction::Use { client: stored, evicted: false }
                },
                None => {
                    let ghost before = self.entries@;
                    let kept = Arc::clone(&client);
                    self.entries.push(
                        ClientEntry { digest, client: kept, cred_keys, last_used: now_millis },
                    );
                    let ghost full = self.entries@;
                    proof {
                        lemma_clients_of(before);
                        assert(full.drop_last() =~= before);
                        assert(distinct_digests(full)) by {
                            assert forall|i: int, j: int|
                                #![trigger full[i].digest, full[j].digest]
                                0 <= i < j < full.len() implies full[i].digest@
                                != full[j].digest@ by {
                                if j < before.len() {
                                    assert(before[i].digest@ != before[j].digest@);
                                } else {
                                    assert(before[i] == full[i]);
                                    assert(clients_of(before).contains_key(before[i].digest@));
                                }
                            }
                        }
                        lemma_clients_of(full);
                    }
                    let evicted = self.entries.len() > self.config.max_entries;
                    if evicted {
                        let place = oldest(&self.entries);
                        let gone = self.entries.remove(place);
                        proof {
                            lemma_removed(full, place as int);
                            assert(is_oldest(clients_of(full), gone.digest@));
                        }
                    }
                    BuildAction::Use { client, evicted }
                },
            },
        }
    }

    fn drop_named(&mut self, cause: &Cause) -> (count: usize)
        requires
            old(self).well_formed(),
        ensures
            final(self).well_formed(),
            final(self).config() == old(self).config(),
            final(self).clients() == without(old(self).clients(), cause.drops()),
            count == old(self).clients().len() - final(self).clients().len(),
    {
        let ghost given = self.clients();
        let ghost config = self.config;
        let ghost all = self.entries@.len();
        let ghost drops = cause.drops();
        let mut count: usize = 0;
        let mut i: usize = 0;
        proof {
            lemma_clients_of(self.entries@);
        }
        while i < self.entries.len()
            invariant
                i <= self.entries@.len(),
                self.well_formed(),
                self.config == config,
                given.len() == all,
                drops == cause.drops(),
                count + self.entries@.len() == all,
                all <= usize::MAX,
                forall|digest: Seq<u8>| #[trigger]
                    self.clients().contains_key(digest) ==> given.contains_key(digest)
                        && given[digest] == self.clients()[digest],
                forall|digest: Seq<u8>| #[trigger]
                    given.contains_key(digest) ==> self.clients().contains_key(digest) || drops(
                        given[digest],
                    ),
                forall|j: int| 0 <= j < i ==> !drops(cached(#[trigger] self.entries@[j])),
            decreases self.entries@.len() - i,
        {
            proof {
                lemma_clients_of(self.entries@);
            }
            if cause.covers(&self.entries[i]) {
                let ghost before = self.entries@;
                let ghost prior = self.clients();
                let _gone = self.entries.remove(i);
                proof {
                    lemma_removed(before, i as int);
                    let digest = before[i as int].digest@;
                    assert(prior.contains_key(digest));
                    assert(self.clients() == prior.remove(digest));
                    assert forall|other: Seq<u8>| #[trigger]
                        self.clients().contains_key(other) implies given.contains_key(other)
                        && given[other] == self.clients()[other] by {
                        assert(prior.contains_key(other));
                    }
                }
                count = count + 1;
            } else {
                i = i + 1;
            }
        }
        proof {
            lemma_clients_of(self.entries@);
            let kept = self.clients();
            assert forall|digest: Seq<u8>| #[trigger] kept.contains_key(digest) implies !drops(
                kept[digest],
            ) by {
                let j = choose|j: int|
                    0 <= j < self.entries@.len() && #[trigger] self.entries@[j].digest@ == digest;
                assert(kept[digest] == cached(self.entries@[j]));
            }
            assert(kept =~= without(given, drops));
        }
        count
    }

    /// Drops every client that holds the credential `(plugin_id, target)`, and
    /// returns how many there were.
    pub fn evict_for(&mut self, plugin_id: &str, target: &str) -> (count: usize)
        requires
            old(self).well_formed(),
        ensures
            final(self).well_formed(),
            final(self).config() == old(self).config(),
            final(self).clients() == without(
                old(self).clients(),
                holds_credential(plugin_id@, target@),
            ),
            count == old(self).clients().len() - final(self).clients().len(),
    {
        self.drop_named(&Cause::Revoked { plugin_id, target })
    }

    /// Drops every client, and returns how many there were.
    ///
    /// All clients of one profile derive from the same secrets, so there is no
    /// need to tell them apart. The caller decides whether the secret that
    /// rotated is one of them.
    pub fn evict_for_secret(&mut self, _secret_ref: &str) -> (count: usize)
        requires
            old(self).well_formed(),
        ensures
            final(self).well_formed(),
            final(self).config() == old(self).config(),
            final(self).clients() == Clients::empty(),
            count == old(self).clients().len(),
    {
        proof {
            lemma_clients_of(self.entries@);
        }
        let count = self.entries.len();
        self.entries.clear();
        assert(self.clients() =~= Clients::empty());
        count
    }

    /// Drops every client that at `now_millis` was unused for longer than the
    /// registry allows, and returns how many there were.
    pub fn sweep_idle(&mut self, now_millis: u64) -> (count: usize)
        requires
            old(self).well_formed(),
        ensures
            final(self).well_formed(),
            final(self).config() == old(self).config(),
            final(self).clients() == without(
                old(self).clients(),
                is_idle(now_millis, old(self).config().idle_eviction_ms),
            ),
            count == old(self).clients().len() - final(self).clients().len(),
    {
        let limit = self.config.idle_eviction_ms;
        self.drop_named(&Cause::Idle { now: now_millis, limit })
    }
}

/// Revoking a credential drops exactly the clients that hold it: every other client
/// is still there, as it was.
pub proof fn law_revoked_credential_is_gone(
    clients: Clients,
    plugin_id: Seq<char>,
    target: Seq<char>,
    digest: Seq<u8>,
)
    ensures
        ({
            let rest = without(clients, holds_credential(plugin_id, target));
            &&& rest.contains_key(digest) <==> clients.contains_key(digest)
                && !clients[digest].cred_keys.contains((plugin_id, target))
            &&& rest.contains_key(digest) ==> rest[digest] == clients[digest]
        }),
{
}

/// A sweep at the same moment as an earlier one drops nothing more.
pub proof fn law_sweep_again_drops_nothing(clients: Clients, now: u64, limit: u64)
    ensures
        ({
            let swept = without(clients, is_idle(now, limit));
            without(swept, is_idle(now, limit)) == swept
        }),
{
    let swept = without(clients, is_idle(now, limit));
    assert(without(swept, is_idle(now, limit)) =~= swept);
}

/// A client that was just handed out outlives every sweep within the idle limit.
pub proof fn law_used_client_survives_sweep(
    clients: Clients,
    digest: Seq<u8>,
    used: u64,
    now: u64,
    limit: u64,
)
    requires
        clients.contains_key(digest),
        now - used <= limit,
    ensures
        ({
            let swept = without(touched(clients, digest, used), is_idle(now, limit));
            swept.contains_key(digest) && swept[digest].client == clients[digest].client
        }),
{
}

/// While the client that was handed out for a digest is stored, the next request
/// for that digest gets the same client and asks for no build.
pub proof fn law_stored_client_is_found(
    before: Clients,
    max_entries: usize,
    digest: Seq<u8>,
    event: BuildEvent,
    now: u64,
    action: BuildAction,
    after: Clients,
    later: u64,
    next: BuildAction,
    last: Clients,
)
    requires
        follows(before, max_entries, digest, event, now, action, after),
        action is Use,
        after.contains_key(digest),
        follows(after, max_entries, digest, BuildEvent::Requested, later, next, last),
    ensures
        next == (BuildAction::Use { client: action->client, evicted: false }),
        last.dom() == after.dom(),
{
    assert(last.dom() =~= after.dom());
}

/// A new client is still there after the step that stores it, wherever there was
/// room for it or another client was used before that step.
pub proof fn law_new_client_is_kept(
    before: Clients,
    max_entries: usize,
    digest: Seq<u8>,
    client: SharedClient,
    cred_keys: Vec<(String, String)>,
    now: u64,
    action: BuildAction,
    after: Clients,
    older: Seq<u8>,
)
    requires
        follows(
            before,
            max_entries,
            digest,
            BuildEvent::Built { client, cred_keys },
            now,
            action,
            after,
        ),
        before.dom().finite(),
        before.len() < max_entries || (before.contains_key(older) && before[older].last_used
            < now),
    ensures
        after.contains_key(digest),
{
    if !before.contains_key(digest) {
        let full = before.insert(
            digest,
            CachedClient {
                client,
                cred_keys: crate::types::pairs_model(cred_keys@),
                last_used: now,
            },
        );
        if before.contains_key(older) {
            assert(full.contains_key(older) && full[older] == before[older]);
        }
    }
}

/// How one caller is served that keeps the registry to itself from its request to
/// its report.
pub ghost struct Turn {
    /// The clients when the caller asks.
    pub before: Clients,
    /// When the caller asks, in milliseconds.
    pub asked_at: u64,
    /// What the caller is told.
    pub answer: BuildAction,
    /// The clients after the request.
    pub between: Clients,
    /// The client that the caller builds, where it is told to.
    pub client: SharedClient,
    /// The credentials behind that client.
    pub cred_keys: Vec<(String, String)>,
    /// When the caller reports that client, in milliseconds.
    pub built_at: u64,
    /// What the caller is told last.
    pub outcome: BuildAction,
    /// The clients when the caller leaves.
    pub after: Clients,
}

/// Whether a caller is served as the registry does it: the request, and a report of
/// the client that it was told to build.
pub open spec fn is_turn(turn: Turn, max_entries: usize, digest: Seq<u8>) -> bool {
    &&& follows(
        turn.before,
        max_entries,
        digest,
        BuildEvent::Requested,
        turn.asked_at,
        turn.answer,
        turn.between,
    )
    &&& if turn.answer is Build {
        follows(
            turn.between,
            max_entries,
            digest,
            BuildEvent::Built { client: turn.client, cred_keys: turn.cred_keys },
            turn.built_at,
            turn.outcome,
            turn.after,
        )
    } else {
        turn.outcome == turn.answer && turn.after == turn.between
    }
}

/// Whether a client that is stored under `digest` at first is so later, too.
pub open spec fn keeps(first: Clients, later: Clients, digest: Seq<u8>) -> bool {
    first.contains_key(digest) ==> later.contains_key(digest) && later[digest].client
        == first[digest].client
}

proof fn lemma_turn(turns: Seq<Turn>, max_entries: usize, digest: Seq<u8>, older: Seq<u8>, i: int)
    requires
        0 <= i < turns.len(),
        forall|k: int|
            0 <= k < turns.len() ==> is_turn(#[trigger] turns[k], max_entries, digest),
        forall|k: int|
            0 < k < turns.len() ==> keeps(turns[k - 1].after, (#[trigger] turns[k]).before, digest),
        !turns[0].before.contains_key(digest),
        turns[0].before.dom().finite(),
        turns[0].before.len() < max_entries || (turns[0].before.contains_key(older)
            && turns[0].before[older].last_used < turns[0].built_at),
    ensures
        turns[i].answer is Build <==> i == 0,
        turns[i].outcome matches BuildAction::Use { client, .. } && client == turns[0].client,
        turns[i].after.contains_key(digest),
        turns[i].after[digest].client == turns[0].client,
    decreases i,
{
    let turn = turns[i];
    assert(is_turn(turn, max_entries, digest));
    if i == 0 {
        law_new_client_is_kept(
            turn.between,
            max_entries,
            digest,
            turn.client,
            turn.cred_keys,
            turn.built_at,
            turn.outcome,
            turn.after,
            older,
        );
    } else {
        lemma_turn(turns, max_entries, digest, older, i - 1);
        assert(keeps(turns[i - 1].after, turn.before, digest));
    }
}

/// Of any number of callers that ask for the same digest in turn, each with the
/// registry to itself from its request to its report, the first is told to build a
/// client and no other is, and all of them get that client. The first finds no client
/// and, where there is no room, one that was used before; between two callers the
/// client is not dropped.
pub proof fn law_callers_in_turn_share_one_client(
    turns: Seq<Turn>,
    max_entries: usize,
    digest: Seq<u8>,
    older: Seq<u8>,
)
    requires
        turns.len() > 0,
        forall|k: int|
            0 <= k < turns.len() ==> is_turn(#[trigger] turns[k], max_entries, digest),
        forall|k: int|
            0 < k < turns.len() ==> keeps(turns[k - 1].after, (#[trigger] turns[k]).before, digest),
        !turns[0].before.contains_key(digest),
        turns[0].before.dom().finite(),
        turns[0].before.len() < max_entries || (turns[0].before.contains_key(older)
            && turns[0].before[older].last_used < turns[0].built_at),
    ensures
        forall|k: int|
            0 <= k < turns.len() ==> ((#[trigger] turns[k]).answer is Build <==> k == 0),
        forall|k: int|
            0 <= k < turns.len() ==> ((#[trigger] turns[k]).outcome matches BuildAction::Use {
                client,
                ..
            } && client == turns[0].client),
{
    assert forall|k: int| 0 <= k < turns.len() implies ((#[trigger] turns[k]).answer is Build <==> k
        == 0) && (turns[k].outcome matches BuildAction::Use { client, .. } && client
        == turns[0].client) by {
        lemma_turn(turns, max_entries, digest, older, k);
    }
}

/// A step of the registry never leaves more clients than the bound allows, and
/// stores no digest but the one it was asked for.
pub proof fn law_registry_stays_bounded(
    before: Clients,
    max_entries: usize,
    digest: Seq<u8>,
    event: BuildEvent,
    now: u64,
    action: BuildAction,
    after: Clients,
)
    requires
        before.dom().finite(),
        before.len() <= max_entries,
        follows(before, max_entries, digest, event, now, action, after),
    ensures
        after.dom().finite(),
        after.len() <= max_entries,
        after.dom().subset_of(before.dom().insert(digest)),
{
}

/// A target ends at white space and at the characters `?&@:"'>,;}` and at no other: every
/// letter, digit, slash, dot, dash, underscore and percent sign belongs to it.
pub proof fn law_target_ends_at_delimiters(c: char)
    ensures
        ends_target(c) <==> crate::text::is_white_space(c) || "?&@:\"'>,;}"@.contains(c),
{
    let all = "?&@:\"'>,;}"@;
    reveal_strlit("?&@:\"'>,;}");
    assert(all.len() == 10);
    assert(all[0] == '?' && all[1] == '&' && all[2] == '@' && all[3] == ':' && all[4] == '"'
        && all[5] == '\'' && all[6] == '>' && all[7] == ',' && all[8] == ';' && all[9] == '}');
    if all.contains(c) {
        let i = choose|i: int| 0 <= i < all.len() && all[i] == c;
    }
}

proof fn lemma_reference_parts(
    text: Seq<char>,
    after: Seq<char>,
    slash: int,
    rest: Seq<char>,
    place: int,
)
    requires
        "cred://"@.is_prefix_of(text),
        after == text.skip("cred://"@.len() as int),
        0 <= slash < after.len(),
        after[slash] == '/',
        rest == after.skip(slash + 1),
        0 <= place <= rest.len(),
    ensures
        text == Seq::<char>::empty() + "cred://"@ + after.take(slash) + "/"@ + rest.take(place)
            + rest.skip(place),
{
    reveal_strlit("/");
    let whole = Seq::<char>::empty() + "cred://"@ + after.take(slash) + "/"@ + rest.take(place)
        + rest.skip(place);
    assert(rest.take(place) + rest.skip(place) =~= rest);
    assert(after.take(slash) + "/"@ + rest =~= after);
    assert("cred://"@ + after =~= text);
    assert(whole =~= "cred://"@ + (after.take(slash) + "/"@ + (rest.take(place) + rest.skip(
        place,
    ))));
}

proof fn lemma_prepended(
    text: Seq<char>,
    a: Seq<char>,
    b: Seq<char>,
    c: Seq<char>,
    d: Seq<char>,
    e: Seq<char>,
    f: Seq<char>,
)
    requires
        text.len() > 0,
        text.drop_first() == a + b + c + d + e + f,
    ensures
        text == (seq![text[0]] + a) + b + c + d + e + f,
{
    assert(text =~= seq![text[0]] + text.drop_first());
    assert(seq![text[0]] + (a + b + c + d + e + f) =~= (seq![text[0]] + a) + b + c + d + e + f);
}

/// Every pair that is found is that of a reference which stands in the text: the marker,
/// the plugin id, a slash and the target, and behind it nothing, a `#` or something that
/// ends a target.
pub proof fn law_found_references_stand_in_the_text(text: Seq<char>, n: int)
    requires
        0 <= n < cred_refs(text).len(),
    ensures
        ({
            let pair = cred_refs(text)[n];
            exists|before: Seq<char>, behind: Seq<char>|
                {
                    &&& text == #[trigger] (before + "cred://"@ + pair.0 + "/"@ + pair.1 + behind)
                    &&& behind.len() == 0 || behind[0] == '#' || ends_target(behind[0])
                }
        }),
    decreases text.len(),
{
    let pair = cred_refs(text)[n];
    let found = refs_at_start(text);
    let marker = "cred://"@;
    reveal_strlit("/");
    if n < found.len() {
        let after = text.skip(marker.len() as int);
        let slash = crate::text::char_index(after, '/');
        crate::text::lemma_char_index(after, '/');
        let rest = after.skip(slash + 1);
        lemma_target_length(rest);
        let whole = rest.take(target_length(rest));
        let place = crate::text::char_index(whole, '#');
        crate::text::lemma_char_index(whole, '#');
        let behind = rest.skip(place);
        let before = Seq::<char>::empty();
        assert(pair.0 == after.take(slash));
        assert(pair.1 == whole.take(place));
        lemma_reference_parts(text, after, slash, rest, place);
        assert(whole.take(place) =~= rest.take(place));
        assert(text == before + marker + pair.0 + "/"@ + pair.1 + behind);
        if behind.len() > 0 {
            assert(behind[0] == rest[place]);
            if place < whole.len() {
                assert(whole[place] == rest[place]);
            }
        }
    } else {
        let tail = text.drop_first();
        assert(pair == cred_refs(tail)[n - found.len()]);
        law_found_references_stand_in_the_text(tail, n - found.len());
        let (before, behind) = choose|before: Seq<char>, behind: Seq<char>|
            {
                &&& tail == #[trigger] (before + "cred://"@ + pair.0 + "/"@ + pair.1 + behind)
                &&& behind.len() == 0 || behind[0] == '#' || ends_target(behind[0])
            };
        let longer = seq![text[0]] + before;
        lemma_prepended(text, before, "cred://"@, pair.0, "/"@, pair.1, behind);
        assert(text == longer + "cred://"@ + pair.0 + "/"@ + pair.1 + behind);
    }
}

/// A sweep drops every client whose last use is longer ago than the registry allows, and
/// no other: the rest stays as it was.
pub proof fn law_sweep_drops_exactly_the_idle(
    registry: &mut ClientRegistry,
    now: u64,
    count: usize,
    digest: Seq<u8>,
)
    requires
        call_ensures(ClientRegistry::sweep_idle, (registry, now), count),
    ensures
        ({
            let (before, after) = (old(registry).clients(), final(registry).clients());
            let limit = old(registry).config().idle_eviction_ms;
            &&& before.contains_key(digest) && before[digest].last_used + limit < now
                ==> !after.contains_key(digest)
            &&& before.contains_key(digest) && before[digest].last_used + limit >= now
                ==> after.contains_key(digest) && after[digest] == before[digest]
            &&& !before.contains_key(digest) ==> !after.contains_key(digest)
            &&& final(registry).config() == old(registry).config()
            &&& count == before.len() - after.len()
        }),
{
}

/// A revocation drops every client that holds the credential, and no other: the rest stays
/// as it was.
pub proof fn law_revocation_drops_exactly_the_holders(
    registry: &mut ClientRegistry,
    plugin_id: &str,
    target: &str,
    count: usize,
    digest: Seq<u8>,
)
    requires
        call_ensures(ClientRegistry::evict_for, (registry, plugin_id, target), count),
    ensures
        ({
            let (before, after) = (old(registry).clients(), final(registry).clients());
            let held = exists|i: int|
                0 <= i < before[digest].cred_keys.len() && #[trigger] before[digest].cred_keys[i]
                    == (plugin_id@, target@);
            &&& after.contains_key(digest) <==> before.contains_key(digest) && !held
            &&& after.contains_key(digest) ==> after[digest] == before[digest]
            &&& final(registry).config() == old(registry).config()
            &&& count == before.len() - after.len()
        }),
{
    assert(registry.clients()[digest].cred_keys.contains((plugin_id@, target@)) <==> exists|i: int|
        0 <= i < registry.clients()[digest].cred_keys.len()
            && #[trigger] registry.clients()[digest].cred_keys[i] == (plugin_id@, target@));
}

/// The rotation of a secret leaves no client.
pub proof fn law_rotation_leaves_no_client(
    registry: &mut ClientRegistry,
    secret_ref: &str,
    count: usize,
    digest: Seq<u8>,
)
    requires
        call_ensures(ClientRegistry::evict_for_secret, (registry, secret_ref), count),
    ensures
        !final(registry).clients().contains_key(digest),
        final(registry).config() == old(registry).config(),
        count == old(registry).clients().len(),
{
}

/// A request gets the client that is stored, which then counts as used at that moment, and
/// a build is asked for exactly where none is stored. No other client changes.
pub proof fn law_request_gets_the_stored_client(
    registry: &mut ClientRegistry,
    digest: CredDigest,
    now: u64,
    action: BuildAction,
    other: Seq<u8>,
)
    requires
        call_ensures(
            ClientRegistry::get_or_build,
            (registry, digest, BuildEvent::Requested, now),
            action,
        ),
    ensures
        ({
            let (before, after) = (old(registry).clients(), final(registry).clients());
            &&& action is Build <==> !before.contains_key(digest@)
            &&& before.contains_key(digest@) ==> {
                &&& action matches BuildAction::Use { client, evicted }
                &&& client == before[digest@].client
                &&& !evicted
                &&& after[digest@].client == before[digest@].client
                &&& after[digest@].cred_keys == before[digest@].cred_keys
                &&& after[digest@].last_used == now
            }
            &&& after.contains_key(other) <==> before.contains_key(other)
            &&& other != digest@ && before.contains_key(other) ==> after[other] == before[other]
        }),
{
}

/// A failed build is passed on with its message, and changes no client.
pub proof fn law_failed_build_changes_nothing(
    registry: &mut ClientRegistry,
    digest: CredDigest,
    message: String,
    now: u64,
    action: BuildAction,
)
    requires
        call_ensures(
            ClientRegistry::get_or_build,
            (registry, digest, BuildEvent::BuildFailed(message), now),
            action,
        ),
    ensures
        action matches BuildAction::Fail(told) && told@ == message@,
        final(registry).clients() == old(registry).clients(),
{
}

/// A client that was built is used, and stored with its credentials and the moment, unless
/// another was stored meanwhile: that one is used then, and the new one dropped. Every
/// other client that is left is as it was.
pub proof fn law_built_client_is_used(
    registry: &mut ClientRegistry,
    digest: CredDigest,
    client: SharedClient,
    cred_keys: Vec<(String, String)>,
    now: u64,
    action: BuildAction,
    other: Seq<u8>,
)
    requires
        call_ensures(
            ClientRegistry::get_or_build,
            (registry, digest, BuildEvent::Built { client, cred_keys }, now),
            action,
        ),
    ensures
        ({
            let (before, after) = (old(registry).clients(), final(registry).clients());
            &&& action matches BuildAction::Use { client: used, .. } && used == (
            if before.contains_key(digest@) {
                before[digest@].client
            } else {
                client
            })
            &&& before.contains_key(digest@) ==> after.contains_key(digest@)
            &&& after.contains_key(digest@) ==> after[digest@].client == action->client
                && after[digest@].last_used == now
            &&& after.contains_key(digest@) && !before.contains_key(digest@) ==> {
                &&& after[digest@].cred_keys.len() == cred_keys@.len()
                &&& forall|i: int|
                    0 <= i < cred_keys@.len() ==> #[trigger] after[digest@].cred_keys[i] == (
                        cred_keys@[i].0@,
                        cred_keys@[i].1@,
                    )
            }
            &&& other != digest@ && after.contains_key(other) ==> before.contains_key(other)
                && after[other] == before[other]
        }),
{
}

/// A client has to go exactly where a new one is stored in a full registry. Then it is one
/// alone, and no client that stays was used before it.
pub proof fn law_least_recently_used_client_goes(
    registry: &mut ClientRegistry,
    digest: CredDigest,
    client: SharedClient,
    cred_keys: Vec<(String, String)>,
    now: u64,
    action: BuildAction,
)
    requires
        registry.well_formed(),
        call_ensures(
            ClientRegistry::get_or_build,
            (registry, digest, BuildEvent::Built { client, cred_keys }, now),
            action,
        ),
    ensures
        ({
            let (before, after) = (old(registry).clients(), final(registry).clients());
            let full = !before.contains_key(digest@) && before.len()
                >= old(registry).config().max_entries;
            &&& action matches BuildAction::Use { evicted, .. } && (evicted <==> full)
            &&& !full ==> after.dom() == before.dom().insert(digest@)
            &&& full ==> exists|gone: Seq<u8>|
                {
                    &&& #[trigger] before.dom().insert(digest@).contains(gone)
                    &&& after.dom() == before.dom().insert(digest@).remove(gone)
                    &&& forall|kept: Seq<u8>| #[trigger]
                        after.contains_key(kept) ==> (if gone == digest@ {
                            now
                        } else {
                            before[gone].last_used
                        }) <= after[kept].last_used
                }
        }),
{
    let (before, after) = (old(registry).clients(), final(registry).clients());
    lemma_clients_of(registry.entries@);
    if before.contains_key(digest@) {
        assert(after.dom() =~= before.dom().insert(digest@));
    } else {
        let full = before.insert(
            digest@,
            CachedClient {
                client,
                cred_keys: crate::types::pairs_model(cred_keys@),
                last_used: now,
            },
        );
        assert(full.dom() =~= before.dom().insert(digest@));
        assert(full.len() == before.len() + 1);
        if full.len() > registry.config().max_entries {
            let gone = choose|gone: Seq<u8>| #[trigger]
                is_oldest(full, gone) && after == full.remove(gone);
            assert(before.dom().insert(digest@).contains(gone));
            assert(after.dom() =~= before.dom().insert(digest@).remove(gone));
            assert forall|kept: Seq<u8>| #[trigger] after.contains_key(kept) implies (if gone
                == digest@ {
                now
            } else {
                before[gone].last_used
            }) <= after[kept].last_used by {
                assert(full.contains_key(kept));
            }
        } else {
            assert(after.dom() =~= before.dom().insert(digest@));
        }
    }
}

/// The digest of a bundle is the hash of its fields, each as `name=value` on a line of its
/// own, in ascending order.
pub proof fn law_digest_hashes_every_field(pairs: &[(String, String)], digest: CredDigest)
    requires
        call_ensures(digest_credential_bundle, (pairs,), digest),
    ensures
        exists|fields: Seq<(Seq<char>, Seq<char>)>|
            {
                &&& digest@ == blake3_hash(#[trigger] field_lines(fields))
                &&& fields.to_multiset() == crate::types::pairs_model(pairs@).to_multiset()
                &&& crate::sort::in_order(fields, crate::sort::by_both())
            },
{
    let le = crate::sort::by_both();
    let fields = crate::sort::stable_sort(crate::types::pairs_model(pairs@), le);
    crate::sort::lemma_by_both_linear();
    crate::sort::law_sort_keeps_items(crate::types::pairs_model(pairs@), le);
    crate::sort::law_sort_is_in_order(crate::types::pairs_model(pairs@), le);
    assert(digest@ == blake3_hash(field_lines(fields)));
}

/// The hashed message grows by one line with each field: the name, `=`, the value and a
/// line break.
pub proof fn law_field_adds_its_line(
    fields: Seq<(Seq<char>, Seq<char>)>,
    field: (Seq<char>, Seq<char>),
)
    ensures
        field_lines(fields.push(field)) == field_lines(fields) + vstd::utf8::encode_utf8(field.0)
            + seq![0x3du8] + vstd::utf8::encode_utf8(field.1) + seq![0x0au8],
{
    assert(fields.push(field).drop_last() =~= fields);
    assert(field_lines(fields.push(field)) =~= field_lines(fields) + vstd::utf8::encode_utf8(field.0)
        + seq![0x3du8] + vstd::utf8::encode_utf8(field.1) + seq![0x0au8]);
}

/// A reference is found wherever it stands in a text: its plugin id has no slash, its target has
/// no `#`, no white space and none of the delimiters, neither is empty, and behind it stands
/// nothing, a `#`, white space or a delimiter. How long they are does not matter.
pub proof fn law_reference_is_found_wherever_it_stands(
    before: Seq<char>,
    plugin_id: Seq<char>,
    target: Seq<char>,
    behind: Seq<char>,
)
    requires
        plugin_id.len() > 0,
        !plugin_id.contains('/'),
        target.len() > 0,
        !target.contains('#'),
        forall|i: int|
            0 <= i < target.len() ==> !crate::text::is_white_space(#[trigger] target[i])
                && !"?&@:\"'>,;}"@.contains(target[i]),
        !("cred:"@.is_suffix_of(plugin_id) && target[0] == '/'),
        behind.len() == 0 || behind[0] == '#' || crate::text::is_white_space(behind[0])
            || "?&@:\"'>,;}"@.contains(behind[0]),
    ensures
        exists|n: int|
            0 <= n < cred_refs(
                before + "cred://"@ + plugin_id + "/"@ + target + behind,
            ).len() && #[trigger] cred_refs(
                before + "cred://"@ + plugin_id + "/"@ + target + behind,
            )[n] == (plugin_id, target),
{
    assert forall|i: int| 0 <= i < target.len() implies !ends_target(#[trigger] target[i]) by {
        law_target_ends_at_delimiters(target[i]);
    }
    if behind.len() > 0 {
        law_target_ends_at_delimiters(behind[0]);
    }
    law_every_reference_is_found(before, plugin_id, target, behind);
    let text = before + "cred://"@ + plugin_id + "/"@ + target + behind;
    assert(text =~= before + reference_text(plugin_id, target) + behind);
    let n = choose|n: int|
        0 <= n < cred_refs(text).len() && cred_refs(text)[n] == (plugin_id, target);
    assert(cred_refs(text)[n] == (plugin_id, target));
}

/// Every pair of the references in a text is handed out, in order, and none exactly where there
/// is no reference.
pub proof fn law_references_are_handed_out(text: &str, refs: Option<Vec<(String, String)>>)
    requires
        call_ensures(collect_cred_refs, (text,), refs),
    ensures
        refs is None <==> cred_refs(text@).len() == 0,
        refs matches Some(found) ==> {
            &&& found@.len() == cred_refs(text@).len()
            &&& forall|i: int|
                0 <= i < found@.len() ==> (#[trigger] found@[i]).0@ == cred_refs(text@)[i].0
                    && found@[i].1@ == cred_refs(text@)[i].1
        },
{
    if refs is Some {
        let found = refs->Some_0;
        assert forall|i: int| 0 <= i < found@.len() implies (#[trigger] found@[i]).0@ == cred_refs(
            text@,
        )[i].0 && found@[i].1@ == cred_refs(text@)[i].1 by {
            assert(crate::types::pairs_model(found@)[i] == (found@[i].0@, found@[i].1@));
        }
    }
}

/// A registry starts without clients, counts those that it holds, and keeps its bounds.
pub proof fn law_registry_starts_empty(
    config: ClientRegistryConfig,
    new: ClientRegistry,
    registry: &ClientRegistry,
    count: usize,
    digest: Seq<u8>,
)
    requires
        call_ensures(ClientRegistry::new, (config,), new),
        call_ensures(ClientRegistry::len, (registry,), count),
    ensures
        !new.clients().contains_key(digest),
        new.config() == config,
        count == registry.clients().dom().len(),
{
}

} // verus!

//! Request profile, method, call mode and response shapes shared by the
//! network backends.

use crate::sort::{at_or_before, sorted, sorted_set, Sortable};
use crate::text::{chars_of, is_text, same_text};
use std::time::Duration;
use vstd::prelude::*;

verus! {

/// The HTTP method of a binding.
#[derive(Debug, Clone, Copy, PartialEq, Eq, Structural)]
pub enum HttpBackendMethod {
    /// `POST`: the arguments travel as a JSON body.
    Post,
    /// `GET`: the arguments travel in the query string.
    Get,
}

/// The method that an operator names. Each method has three spellings: lower
/// case, upper case and title case.
pub open spec fn named_method(name: Seq<char>) -> Option<HttpBackendMethod> {
    if name == "post"@ || name == "POST"@ || name == "Post"@ {
        Some(HttpBackendMethod::Post)
    } else if name == "get"@ || name == "GET"@ || name == "Get"@ {
        Some(HttpBackendMethod::Get)
    } else {
        None
    }
}

impl HttpBackendMethod {
    /// Reads an operator-facing `method:` value.
    pub fn from_name(name: &str) -> (method: Option<HttpBackendMethod>)
        ensures
            method == named_method(name@),
    {
        let chars = chars_of(name);
        let given = chars.as_slice();
        if is_text(given, "post") || is_text(given, "POST") || is_text(given, "Post") {
            Some(HttpBackendMethod::Post)
        } else if is_text(given, "get") || is_text(given, "GET") || is_text(given, "Get") {
            Some(HttpBackendMethod::Get)
        } else {
            None
        }
    }
}

/// How a call carries its arguments.
#[derive(Debug, Clone, Copy, PartialEq, Eq, Structural)]
pub enum HttpCallMode {
    /// As a JSON body.
    JsonBody,
    /// As a query string.
    QueryString,
}

/// How safe it is to send a failed call again.
#[derive(Debug, Clone, Copy, PartialEq, Eq, Structural)]
pub enum RetrySafetyContext {
    /// A read-only call: it may be repeated without review.
    ReadOnlyProbe,
    /// A call that may have an effect each time it is sent.
    PotentiallyNonIdempotentJsonCall,
}

impl HttpCallMode {
    /// The call mode of a method.
    pub fn for_method(method: HttpBackendMethod) -> (mode: Self)
        ensures
            mode == (match method {
                HttpBackendMethod::Post => HttpCallMode::JsonBody,
                HttpBackendMethod::Get => HttpCallMode::QueryString,
            }),
    {
        match method {
            HttpBackendMethod::Post => HttpCallMode::JsonBody,
            HttpBackendMethod::Get => HttpCallMode::QueryString,
        }
    }

    /// The name of the call mode in a response envelope.
    pub fn request_kind(self) -> (kind: &'static str)
        ensures
            kind@ == (match self {
                HttpCallMode::JsonBody => "json_body"@,
                HttpCallMode::QueryString => "query_string"@,
            }),
    {
        match self {
            HttpCallMode::JsonBody => "json_body",
            HttpCallMode::QueryString => "query_string",
        }
    }

    /// The retry-safety class of the call mode.
    pub fn retry_safety_context(self) -> (context: RetrySafetyContext)
        ensures
            context == (match self {
                HttpCallMode::JsonBody => RetrySafetyContext::PotentiallyNonIdempotentJsonCall,
                HttpCallMode::QueryString => RetrySafetyContext::ReadOnlyProbe,
            }),
    {
        match self {
            HttpCallMode::JsonBody => RetrySafetyContext::PotentiallyNonIdempotentJsonCall,
            HttpCallMode::QueryString => RetrySafetyContext::ReadOnlyProbe,
        }
    }
}

/// The model of a sequence of pairs of strings.
pub open spec fn pairs_model(pairs: Seq<(String, String)>) -> Seq<(Seq<char>, Seq<char>)> {
    pairs.map_values(|pair: (String, String)| (pair.0@, pair.1@))
}

/// A pair of strings, by reference, ordered by the first of them.
#[derive(Clone, Copy)]
struct PairRef<'a> {
    pair: &'a (String, String),
}

impl<'a> Sortable for PairRef<'a> {
    type Model = (Seq<char>, Seq<char>);

    closed spec fn model(&self) -> (Seq<char>, Seq<char>) {
        (self.pair.0@, self.pair.1@)
    }

    open spec fn order() -> spec_fn((Seq<char>, Seq<char>), (Seq<char>, Seq<char>)) -> bool {
        crate::sort::by_first()
    }

    fn may_precede(&self, other: &Self) -> (yes: bool) {
        at_or_before(self.pair.0.as_str(), other.pair.0.as_str())
    }
}

/// Copies of `pairs`, sorted by the first of each; pairs with the same first
/// keep their turn.
pub fn sorted_pairs(pairs: &[(String, String)]) -> (copies: Vec<(String, String)>)
    ensures
        pairs_model(copies@) == crate::sort::stable_sort(
            pairs_model(pairs@),
            crate::sort::by_first(),
        ),
{
    let ghost given = pairs_model(pairs@);
    let mut refs: Vec<PairRef> = Vec::new();
    let mut i: usize = 0;
    while i < pairs.len()
        invariant
            i <= pairs@.len(),
            given == pairs_model(pairs@),
            crate::sort::models(refs@) == given.take(i as int),
        decreases pairs@.len() - i,
    {
        let ghost so_far = crate::sort::models(refs@);
        refs.push(PairRef { pair: &pairs[i] });
        assert(crate::sort::models(refs@) =~= so_far.push(given[i as int]));
        assert(given.take(i + 1) =~= so_far.push(given[i as int]));
        i = i + 1;
    }
    assert(given.take(i as int) =~= given);
    let ordered = sorted(&refs);
    let ghost all = crate::sort::models(ordered@);
    let mut copies: Vec<(String, String)> = Vec::new();
    let mut n: usize = 0;
    while n < ordered.len()
        invariant
            n <= ordered@.len(),
            all == crate::sort::models(ordered@),
            pairs_model(copies@) == all.take(n as int),
        decreases ordered@.len() - n,
    {
        let pair = ordered[n].pair;
        let ghost so_far = pairs_model(copies@);
        copies.push((pair.0.clone(), pair.1.clone()));
        assert(pairs_model(copies@) =~= so_far.push((pair.0@, pair.1@)));
        assert(all.take(n + 1) =~= so_far.push((pair.0@, pair.1@)));
        n = n + 1;
    }
    assert(all.take(n as int) =~= all);
    copies
}

/// A pair of strings, by reference, ordered by both of them.
#[derive(Clone, Copy)]
struct WholePairRef<'a> {
    pair: &'a (String, String),
}

impl<'a> Sortable for WholePairRef<'a> {
    type Model = (Seq<char>, Seq<char>);

    closed spec fn model(&self) -> (Seq<char>, Seq<char>) {
        (self.pair.0@, self.pair.1@)
    }

    open spec fn order() -> spec_fn((Seq<char>, Seq<char>), (Seq<char>, Seq<char>)) -> bool {
        crate::sort::by_both()
    }

    fn may_precede(&self, other: &Self) -> (yes: bool) {
        if same_text(self.pair.0.as_str(), other.pair.0.as_str()) {
            at_or_before(self.pair.1.as_str(), other.pair.1.as_str())
        } else {
            at_or_before(self.pair.0.as_str(), other.pair.0.as_str())
        }
    }
}

fn whole_pair_refs(pairs: &[(String, String)]) -> (refs: Vec<WholePairRef>)
    ensures
        crate::sort::models(refs@) == pairs_model(pairs@),
{
    let ghost given = pairs_model(pairs@);
    let mut refs: Vec<WholePairRef> = Vec::new();
    let mut i: usize = 0;
    while i < pairs.len()
        invariant
            i <= pairs@.len(),
            given == pairs_model(pairs@),
            crate::sort::models(refs@) == given.take(i as int),
        decreases pairs@.len() - i,
    {
        let ghost so_far = crate::sort::models(refs@);
        refs.push(WholePairRef { pair: &pairs[i] });
        assert(crate::sort::models(refs@) =~= so_far.push(given[i as int]));
        assert(given.take(i + 1) =~= so_far.push(given[i as int]));
        i = i + 1;
    }
    assert(given.take(i as int) =~= given);
    refs
}

fn copies_of(refs: &Vec<WholePairRef>) -> (copies: Vec<(String, String)>)
    ensures
        pairs_model(copies@) == crate::sort::models(refs@),
{
    let ghost all = crate::sort::models(refs@);
    let mut copies: Vec<(String, String)> = Vec::new();
    let mut i: usize = 0;
    while i < refs.len()
        invariant
            i <= refs@.len(),
            all == crate::sort::models(refs@),
            pairs_model(copies@) == all.take(i as int),
        decreases refs@.len() - i,
    {
        let pair = refs[i].pair;
        let ghost so_far = pairs_model(copies@);
        copies.push((pair.0.clone(), pair.1.clone()));
        assert(pairs_model(copies@) =~= so_far.push((pair.0@, pair.1@)));
        assert(all.take(i + 1) =~= so_far.push((pair.0@, pair.1@)));
        i = i + 1;
    }
    assert(all.take(i as int) =~= all);
    copies
}

/// Copies of `pairs`, sorted by both parts of each.
pub fn fully_sorted_pairs(pairs: &[(String, String)]) -> (copies: Vec<(String, String)>)
    ensures
        pairs_model(copies@) == crate::sort::stable_sort(
            pairs_model(pairs@),
            crate::sort::by_both(),
        ),
{
    copies_of(&sorted(&whole_pair_refs(pairs)))
}

/// Copies of `pairs`, sorted by both parts of each, and each once.
pub fn sorted_pair_set(pairs: &[(String, String)]) -> (copies: Vec<(String, String)>)
    ensures
        crate::sort::strictly_in_order(pairs_model(copies@), crate::sort::by_both()),
        forall|pair: (Seq<char>, Seq<char>)| #[trigger]
            pairs_model(copies@).contains(pair) <==> pairs_model(pairs@).contains(pair),
{
    proof {
        crate::sort::lemma_by_both_linear();
    }
    copies_of(&sorted_set(&whole_pair_refs(pairs)))
}

/// Header names and their values: each name once, in the order of the names.
#[derive(Debug)]
pub struct HeaderTable {
    entries: Vec<(String, String)>,
}

/// Whether each name stands strictly before all later ones.
pub open spec fn names_ascend(entries: Seq<(Seq<char>, Seq<char>)>) -> bool {
    crate::sort::strictly_in_order(entries, crate::sort::by_first())
}

/// The entries as a map from names to values.
pub open spec fn entries_map(entries: Seq<(Seq<char>, Seq<char>)>) -> Map<Seq<char>, Seq<char>>
    decreases entries.len(),
{
    if entries.len() == 0 {
        Map::empty()
    } else {
        entries_map(entries.drop_last()).insert(entries.last().0, entries.last().1)
    }
}

/// What [`entries_map`] holds of entries whose names ascend.
pub proof fn lemma_entries_map(entries: Seq<(Seq<char>, Seq<char>)>)
    requires
        names_ascend(entries),
    ensures
        forall|i: int|
            #![trigger entries[i]]
            0 <= i < entries.len() ==> entries_map(entries).contains_key(entries[i].0)
                && entries_map(entries)[entries[i].0] == entries[i].1,
        forall|name: Seq<char>| #[trigger]
            entries_map(entries).contains_key(name) ==> exists|i: int|
                0 <= i < entries.len() && #[trigger] entries[i].0 == name,
    decreases entries.len(),
{
    if entries.len() > 0 {
        let shorter = entries.drop_last();
        let le = crate::sort::by_first::<Seq<char>>();
        assert forall|i: int, j: int|
            #![trigger shorter[i], shorter[j]]
            0 <= i < j < shorter.len() implies le(shorter[i], shorter[j]) && !le(
            shorter[j],
            shorter[i],
        ) by {
            assert(shorter[i] == entries[i] && shorter[j] == entries[j]);
        }
        lemma_entries_map(shorter);
        assert forall|i: int| #![trigger entries[i]] 0 <= i < entries.len() implies entries_map(
            entries,
        ).contains_key(entries[i].0) && entries_map(entries)[entries[i].0] == entries[i].1 by {
            if i < shorter.len() {
                assert(shorter[i] == entries[i]);
                assert(!le(entries[entries.len() - 1], entries[i]));
                crate::sort::lemma_text_le_reflexive(entries[i].0);
            }
        }
        assert forall|name: Seq<char>| #[trigger]
            entries_map(entries).contains_key(name) implies exists|i: int|
            0 <= i < entries.len() && #[trigger] entries[i].0 == name by {
            if name == entries.last().0 {
                assert(entries[entries.len() - 1].0 == name);
            } else {
                assert(entries_map(shorter).contains_key(name));
                let i = choose|i: int| 0 <= i < shorter.len() && #[trigger] shorter[i].0 == name;
                assert(entries[i].0 == name);
            }
        }
    }
}

proof fn lemma_replace(entries: Seq<(Seq<char>, Seq<char>)>, place: int, value: Seq<char>)
    requires
        names_ascend(entries),
        0 <= place < entries.len(),
    ensures
        names_ascend(entries.update(place, (entries[place].0, value))),
        entries_map(entries.update(place, (entries[place].0, value))) == entries_map(
            entries,
        ).insert(entries[place].0, value),
{
    let name = entries[place].0;
    let changed = entries.update(place, (name, value));
    let le = crate::sort::by_first::<Seq<char>>();
    assert forall|i: int, j: int|
        #![trigger changed[i], changed[j]]
        0 <= i < j < changed.len() implies le(changed[i], changed[j]) && !le(
        changed[j],
        changed[i],
    ) by {
        assert(le(entries[i], entries[j]) && !le(entries[j], entries[i]));
    }
    lemma_same_map(entries, changed, name, value, place);
}

proof fn lemma_put_between(
    entries: Seq<(Seq<char>, Seq<char>)>,
    place: int,
    name: Seq<char>,
    value: Seq<char>,
)
    requires
        names_ascend(entries),
        0 <= place <= entries.len(),
        forall|i: int|
            0 <= i < place ==> !crate::sort::text_le(name, (#[trigger] entries[i]).0),
        place < entries.len() ==> crate::sort::text_le(name, entries[place].0) && name
            != entries[place].0,
    ensures
        names_ascend(entries.insert(place, (name, value))),
        entries_map(entries.insert(place, (name, value))) == entries_map(entries).insert(
            name,
            value,
        ),
{
    let changed = entries.insert(place, (name, value));
    let le = crate::sort::by_first::<Seq<char>>();
    assert forall|i: int, j: int|
        #![trigger changed[i], changed[j]]
        0 <= i < j < changed.len() implies le(changed[i], changed[j]) && !le(
        changed[j],
        changed[i],
    ) by {
        if i == place {
            let next = entries[place];
            assert(changed[j] == entries[j - 1]);
            if j - 1 > place {
                assert(le(entries[place], entries[j - 1]) && !le(entries[j - 1], entries[place]));
                crate::sort::lemma_text_le_transitive(name, next.0, entries[j - 1].0);
                if crate::sort::text_le(entries[j - 1].0, name) {
                    crate::sort::lemma_text_le_transitive(entries[j - 1].0, name, next.0);
                }
            } else {
                crate::sort::lemma_text_le_total(name, next.0);
            }
        } else if j == place {
            assert(!crate::sort::text_le(name, entries[i].0));
            crate::sort::lemma_text_le_total(name, entries[i].0);
        } else {
            let old_i = if i < place { i } else { i - 1 };
            let old_j = if j < place { j } else { j - 1 };
            assert(changed[i] == entries[old_i] && changed[j] == entries[old_j]);
            assert(le(entries[old_i], entries[old_j]) && !le(entries[old_j], entries[old_i]));
        }
    }
    lemma_same_map(entries, changed, name, value, place);
}

proof fn lemma_absent(entries: Seq<(Seq<char>, Seq<char>)>, place: int, name: Seq<char>)
    requires
        names_ascend(entries),
        0 <= place <= entries.len(),
        forall|i: int|
            0 <= i < place ==> !crate::sort::text_le(name, (#[trigger] entries[i]).0),
        place < entries.len() ==> crate::sort::text_le(name, entries[place].0) && name
            != entries[place].0,
    ensures
        !entries_map(entries).contains_key(name),
{
    lemma_entries_map(entries);
    let le = crate::sort::by_first::<Seq<char>>();
    if entries_map(entries).contains_key(name) {
        let i = choose|i: int| 0 <= i < entries.len() && #[trigger] entries[i].0 == name;
        crate::sort::lemma_text_le_reflexive(name);
        if i > place {
            assert(!le(entries[i], entries[place]));
        }
    }
}

/// Entries that differ from others in one name alone have the same map but for
/// that name.
proof fn lemma_same_map(
    entries: Seq<(Seq<char>, Seq<char>)>,
    changed: Seq<(Seq<char>, Seq<char>)>,
    name: Seq<char>,
    value: Seq<char>,
    place: int,
)
    requires
        names_ascend(entries),
        names_ascend(changed),
        0 <= place <= entries.len(),
        place < changed.len(),
        changed[place] == (name, value),
        changed == entries.insert(place, (name, value)) || (place < entries.len()
            && entries[place].0 == name && changed == entries.update(place, (name, value))),
    ensures
        entries_map(changed) == entries_map(entries).insert(name, value),
{
    lemma_entries_map(entries);
    lemma_entries_map(changed);
    let before = entries_map(entries);
    let after = entries_map(changed);
    assert(changed[place].0 == name);
    assert forall|other: Seq<char>| #[trigger]
        after.contains_key(other) implies before.insert(name, value).contains_key(other)
        && after[other] == before.insert(name, value)[other] by {
        let i = choose|i: int| 0 <= i < changed.len() && #[trigger] changed[i].0 == other;
        if other != name {
            let old_i = if changed.len() == entries.len() || i < place { i } else { i - 1 };
            assert(entries[old_i] == changed[i]);
        }
    }
    assert forall|other: Seq<char>| #[trigger]
        before.insert(name, value).contains_key(other) implies after.contains_key(other) by {
        if other != name {
            let i = choose|i: int| 0 <= i < entries.len() && #[trigger] entries[i].0 == other;
            let new_i = if changed.len() == entries.len() || i < place { i } else { i + 1 };
            assert(changed[new_i] == entries[i]);
        }
    }
    assert(after =~= before.insert(name, value));
}

impl View for HeaderTable {
    type V = Seq<(Seq<char>, Seq<char>)>;

    closed spec fn view(&self) -> Seq<(Seq<char>, Seq<char>)> {
        pairs_model(self.entries@)
    }
}

impl HeaderTable {
    #[verifier::type_invariant]
    spec fn well_formed(self) -> bool {
        names_ascend(pairs_model(self.entries@))
    }

    /// A table without entries.
    pub fn new() -> (table: Self)
        ensures
            table@ == Seq::<(Seq<char>, Seq<char>)>::empty(),
    {
        let table = HeaderTable { entries: Vec::new() };
        assert(pairs_model(table.entries@) =~= Seq::empty());
        table
    }

    /// The entries, in the order of the names.
    pub fn entries(&self) -> (entries: &Vec<(String, String)>)
        ensures
            pairs_model(entries@) == self@,
            names_ascend(self@),
    {
        proof {
            use_type_invariant(self);
        }
        &self.entries
    }

    /// A table with the same names and other values, in the same order.
    pub fn with_values(&self, values: Vec<String>) -> (table: Self)
        requires
            values@.len() == self@.len(),
        ensures
            table@.len() == self@.len(),
            forall|i: int|
                0 <= i < self@.len() ==> #[trigger] table@[i] == (self@[i].0, values@[i]@),
            names_ascend(table@),
    {
        proof {
            use_type_invariant(self);
        }
        let ghost given = pairs_model(self.entries@);
        let mut entries: Vec<(String, String)> = Vec::new();
        let mut i: usize = 0;
        while i < values.len()
            invariant
                i <= values@.len(),
                values@.len() == self.entries@.len(),
                entries@.len() == i,
                forall|j: int|
                    #![trigger entries@[j]]
                    0 <= j < i ==> entries@[j].0@ == self.entries@[j].0@ && entries@[j].1@
                        == values@[j]@,
            decreases values@.len() - i,
        {
            entries.push((self.entries[i].0.clone(), values[i].clone()));
            i = i + 1;
        }
        proof {
            let changed = pairs_model(entries@);
            let le = crate::sort::by_first::<Seq<char>>();
            assert forall|i: int, j: int|
                #![trigger changed[i], changed[j]]
                0 <= i < j < changed.len() implies le(changed[i], changed[j]) && !le(
                changed[j],
                changed[i],
            ) by {
                assert(le(given[i], given[j]) && !le(given[j], given[i]));
                assert(entries@[i].0@ == given[i].0);
                assert(entries@[j].0@ == given[j].0);
            }
        }
        HeaderTable { entries }
    }

    /// Sets the value of `name`, in place of the one it may have had.
    pub fn insert(&mut self, name: String, value: String)
        ensures
            names_ascend(final(self)@),
            entries_map(final(self)@) == entries_map(old(self)@).insert(name@, value@),
            final(self)@.len() == old(self)@.len() + (if entries_map(old(self)@).contains_key(
                name@,
            ) {
                0int
            } else {
                1int
            }),
    {
        proof {
            use_type_invariant(&*self);
        }
        let mut entries: Vec<(String, String)> = Vec::new();
        std::mem::swap(&mut entries, &mut self.entries);
        let ghost given = pairs_model(entries@);
        let mut place: usize = 0;
        while place < entries.len() && !at_or_before(name.as_str(), entries[place].0.as_str())
            invariant
                place <= entries@.len(),
                given == pairs_model(entries@),
                forall|i: int|
                    0 <= i < place ==> !crate::sort::text_le(name@, (#[trigger] given[i]).0),
            decreases entries@.len() - place,
        {
            place = place + 1;
        }
        proof {
            lemma_entries_map(given);
        }
        if place < entries.len() && same_text(name.as_str(), entries[place].0.as_str()) {
            proof {
                lemma_replace(given, place as int, value@);
                assert(entries_map(given).contains_key(given[place as int].0));
            }
            entries.set(place, (name, value));
            assert(pairs_model(entries@) =~= given.update(place as int, (name@, value@)));
        } else {
            proof {
                lemma_put_between(given, place as int, name@, value@);
                lemma_absent(given, place as int, name@);
            }
            entries.insert(place, (name, value));
            assert(pairs_model(entries@) =~= given.insert(place as int, (name@, value@)));
        }
        std::mem::swap(&mut entries, &mut self.entries);
    }
}

/// Tables with the same names and values are equal, whatever the order in which
/// the values were set.
pub proof fn law_table_is_its_map(
    a: Seq<(Seq<char>, Seq<char>)>,
    b: Seq<(Seq<char>, Seq<char>)>,
)
    requires
        names_ascend(a),
        names_ascend(b),
        entries_map(a) == entries_map(b),
    ensures
        a == b,
{
    lemma_ascend_by_both(a);
    lemma_ascend_by_both(b);
    assert forall|entry: (Seq<char>, Seq<char>)| #[trigger] a.contains(entry) <==> b.contains(
        entry,
    ) by {
        lemma_shared_entry(a, b, entry);
        lemma_shared_entry(b, a, entry);
    }
    crate::sort::lemma_by_both_linear();
    crate::sort::law_strict_order_unique(a, b, crate::sort::by_both());
}

proof fn lemma_ascend_by_both(entries: Seq<(Seq<char>, Seq<char>)>)
    requires
        names_ascend(entries),
    ensures
        crate::sort::strictly_in_order(entries, crate::sort::by_both()),
{
    let le = crate::sort::by_both();
    let by_name = crate::sort::by_first::<Seq<char>>();
    assert forall|i: int, j: int|
        #![trigger entries[i], entries[j]]
        0 <= i < j < entries.len() implies le(entries[i], entries[j]) && !le(
        entries[j],
        entries[i],
    ) by {
        assert(by_name(entries[i], entries[j]) && !by_name(entries[j], entries[i]));
        crate::sort::lemma_text_le_reflexive(entries[i].0);
    }
}

proof fn lemma_shared_entry(
    a: Seq<(Seq<char>, Seq<char>)>,
    b: Seq<(Seq<char>, Seq<char>)>,
    entry: (Seq<char>, Seq<char>),
)
    requires
        names_ascend(a),
        names_ascend(b),
        entries_map(a) == entries_map(b),
    ensures
        a.contains(entry) ==> b.contains(entry),
{
    lemma_entries_map(a);
    lemma_entries_map(b);
    if a.contains(entry) {
        let i = choose|i: int| 0 <= i < a.len() && a[i] == entry;
        assert(entries_map(a).contains_key(a[i].0));
        let j = choose|j: int| 0 <= j < b.len() && #[trigger] b[j].0 == entry.0;
        assert(entries_map(b)[b[j].0] == b[j].1);
        assert(b[j] == entry);
    }
}

/// A copy of `pairs`.
pub fn copy_pairs(pairs: &Vec<(String, String)>) -> (copies: Vec<(String, String)>)
    ensures
        pairs_model(copies@) == pairs_model(pairs@),
{
    let mut copies: Vec<(String, String)> = Vec::new();
    let mut i: usize = 0;
    while i < pairs.len()
        invariant
            i <= pairs@.len(),
            pairs_model(copies@) == pairs_model(pairs@).take(i as int),
        decreases pairs@.len() - i,
    {
        let pair = &pairs[i];
        let ghost so_far = pairs_model(copies@);
        copies.push((pair.0.clone(), pair.1.clone()));
        assert(pairs_model(copies@) =~= so_far.push((pair.0@, pair.1@)));
        assert(pairs_model(pairs@).take(i + 1) =~= so_far.push((pair.0@, pair.1@)));
        i = i + 1;
    }
    assert(pairs_model(pairs@).take(i as int) =~= pairs_model(pairs@));
    copies
}

impl Clone for HeaderTable {
    fn clone(&self) -> (copy: Self)
        ensures
            copy@ == self@,
    {
        proof {
            use_type_invariant(self);
        }
        HeaderTable { entries: copy_pairs(&self.entries) }
    }
}

/// The knobs of one binding. Stable across calls.
#[derive(Debug)]
pub struct HttpRequestProfile {
    /// The base URL.
    pub url: String,
    /// The method of every call.
    pub method: HttpBackendMethod,
    /// The headers that the operator configured.
    pub headers: HeaderTable,
    /// The status codes that count as success.
    pub expected_status_codes: Vec<u16>,
    /// Whether a response that is not JSON is an error.
    pub require_json_response: bool,
    /// The number of body bytes that are kept.
    pub max_response_bytes: usize,
    /// The time limit of one call.
    pub timeout: Duration,
    /// Whether hosts may resolve to private addresses.
    pub allow_private_backends: bool,
}

impl Clone for HttpRequestProfile {
    fn clone(&self) -> (copy: Self)
        ensures
            copy.url@ == self.url@,
            copy.method == self.method,
            copy.headers@ == self.headers@,
            copy.expected_status_codes@ == self.expected_status_codes@,
            copy.require_json_response == self.require_json_response,
            copy.max_response_bytes == self.max_response_bytes,
            copy.timeout == self.timeout,
            copy.allow_private_backends == self.allow_private_backends,
    {
        HttpRequestProfile {
            url: self.url.clone(),
            method: self.method,
            headers: self.headers.clone(),
            expected_status_codes: self.expected_status_codes.clone(),
            require_json_response: self.require_json_response,
            max_response_bytes: self.max_response_bytes,
            timeout: self.timeout,
            allow_private_backends: self.allow_private_backends,
        }
    }
}

/// The outcome of one HTTP call.
#[derive(Debug, Clone)]
pub struct HttpResponseSummary {
    /// The status code of the response.
    pub status_code: u16,
    /// The content type, where the response has one in visible ASCII.
    pub content_type: Option<String>,
    /// The delay that the response asks for, in milliseconds.
    pub retry_after_ms: Option<u64>,
    /// The body, as text.
    pub body: String,
    /// Whether the body was cut at the limit.
    pub body_truncated: bool,
    /// How long the call took, in milliseconds.
    pub duration_ms: u128,
}

/// The view of a list of pairs holds each of them, in order.
pub proof fn law_pairs_are_the_strings(pairs: Seq<(String, String)>, i: int)
    requires
        0 <= i < pairs.len(),
    ensures
        pairs_model(pairs).len() == pairs.len(),
        pairs_model(pairs)[i] == (pairs[i].0@, pairs[i].1@),
{
}

/// A method is read from its name in lower case, upper case or title case, and from nothing
/// else.
pub proof fn law_method_names(name: &str, method: Option<HttpBackendMethod>)
    requires
        call_ensures(HttpBackendMethod::from_name, (name,), method),
    ensures
        method == Some(HttpBackendMethod::Get) <==> name@ == "get"@ || name@ == "GET"@ || name@
            == "Get"@,
        method == Some(HttpBackendMethod::Post) <==> name@ == "post"@ || name@ == "POST"@ || name@
            == "Post"@,
        method is None <==> !(name@ == "get"@ || name@ == "GET"@ || name@ == "Get"@) && !(name@
            == "post"@ || name@ == "POST"@ || name@ == "Post"@),
{
    reveal_strlit("get");
    reveal_strlit("GET");
    reveal_strlit("Get");
    reveal_strlit("post");
    reveal_strlit("POST");
    reveal_strlit("Post");
    assert("get"@.len() == 3 && "GET"@.len() == 3 && "Get"@.len() == 3);
    assert("post"@.len() == 4 && "POST"@.len() == 4 && "Post"@.len() == 4);
}

/// A GET call carries its arguments in the query and may be repeated without review; a POST
/// call carries them as a JSON body and may not.
pub proof fn law_only_get_calls_are_read_only(
    method: HttpBackendMethod,
    mode: HttpCallMode,
    kind: &'static str,
    context: RetrySafetyContext,
)
    requires
        call_ensures(HttpCallMode::for_method, (method,), mode),
        call_ensures(HttpCallMode::request_kind, (mode,), kind),
        call_ensures(HttpCallMode::retry_safety_context, (mode,), context),
    ensures
        mode == HttpCallMode::QueryString <==> method == HttpBackendMethod::Get,
        mode == HttpCallMode::JsonBody <==> method == HttpBackendMethod::Post,
        context == RetrySafetyContext::ReadOnlyProbe <==> method == HttpBackendMethod::Get,
        method == HttpBackendMethod::Get ==> kind@ == "query_string"@,
        method == HttpBackendMethod::Post ==> kind@ == "json_body"@,
{
}

/// Setting a header in a table gives that name that value and changes no other: a name has one
/// entry, the names stay in order, and every other entry stays.
pub proof fn law_table_insert_sets_one_name(
    table: &mut HeaderTable,
    name: String,
    value: String,
    other: (Seq<char>, Seq<char>),
)
    requires
        names_ascend(old(table)@),
        call_ensures(HeaderTable::insert, (table, name, value), ()),
    ensures
        final(table)@.contains((name@, value@)),
        ({
            let after = final(table)@;
            forall|i: int|
                0 <= i < after.len() && (#[trigger] after[i]).0 == name@ ==> after[i].1 == value@
        }),
        other.0 != name@ ==> (final(table)@.contains(other) <==> old(table)@.contains(other)),
{
    let (before, after) = (old(table)@, final(table)@);
    lemma_entries_map(before);
    lemma_entries_map(after);
    assert(entries_map(after).contains_key(name@));
    let i = choose|i: int| 0 <= i < after.len() && #[trigger] after[i].0 == name@;
    assert(entries_map(after)[after[i].0] == after[i].1);
    assert(after[i] == (name@, value@));
    assert forall|n: int| 0 <= n < after.len() && (#[trigger] after[n]).0 == name@ implies after[n].1
        == value@ by {
        assert(entries_map(after)[after[n].0] == after[n].1);
    }
    if other.0 != name@ {
        if after.contains(other) {
            let n = choose|n: int| 0 <= n < after.len() && after[n] == other;
            assert(entries_map(after).contains_key(after[n].0));
            assert(entries_map(before).contains_key(other.0));
            let m = choose|m: int| 0 <= m < before.len() && #[trigger] before[m].0 == other.0;
            assert(entries_map(before)[before[m].0] == before[m].1);
            assert(before[m] == other);
        }
        if before.contains(other) {
            let n = choose|n: int| 0 <= n < before.len() && before[n] == other;
            assert(entries_map(before).contains_key(before[n].0));
            assert(entries_map(after).contains_key(other.0));
            let m = choose|m: int| 0 <= m < after.len() && #[trigger] after[m].0 == other.0;
            assert(entries_map(after)[after[m].0] == after[m].1);
            assert(after[m] == other);
        }
    }
}

/// A new table is empty, and one with other values has the same names, in the same order, each
/// with its new value.
pub proof fn law_tables_are_what_they_are_made_of(
    new: HeaderTable,
    table: &HeaderTable,
    values: Vec<String>,
    changed: HeaderTable,
    i: int,
)
    requires
        call_ensures(HeaderTable::new, (), new),
        call_ensures(HeaderTable::with_values, (table, values), changed),
        0 <= i < table@.len(),
    ensures
        new@.len() == 0,
        changed@.len() == table@.len(),
        changed@[i] == (table@[i].0, values@[i]@),
{
}

/// The names of a table ascend, so each is there once.
pub proof fn law_table_names_ascend(
    table: &HeaderTable,
    entries: &Vec<(String, String)>,
    i: int,
    j: int,
)
    requires
        call_ensures(HeaderTable::entries, (table,), entries),
        0 <= i < j < entries@.len(),
    ensures
        entries@.len() == table@.len(),
        entries@[i].0@ == table@[i].0,
        entries@[i].1@ == table@[i].1,
        crate::sort::text_le(entries@[i].0@, entries@[j].0@),
        entries@[i].0@ != entries@[j].0@,
{
    let le = crate::sort::by_first::<Seq<char>>();
    assert(table@[i] == (entries@[i].0@, entries@[i].1@));
    assert(table@[j] == (entries@[j].0@, entries@[j].1@));
    assert(le(table@[i], table@[j]) && !le(table@[j], table@[i]));
}

/// Sorted copies hold every pair as often as it was given, in ascending order: by the first text
/// alone, or by both.
pub proof fn law_sorted_pairs_are_the_pairs(
    pairs: &[(String, String)],
    by_name: Vec<(String, String)>,
    by_both: Vec<(String, String)>,
    i: int,
    j: int,
)
    requires
        call_ensures(sorted_pairs, (pairs,), by_name),
        call_ensures(fully_sorted_pairs, (pairs,), by_both),
    ensures
        pairs_model(by_name@).to_multiset() == pairs_model(pairs@).to_multiset(),
        pairs_model(by_both@).to_multiset() == pairs_model(pairs@).to_multiset(),
        0 <= i < j < by_name@.len() ==> crate::sort::text_le(by_name@[i].0@, by_name@[j].0@),
        0 <= i < j < by_both@.len() ==> crate::sort::text_le(by_both@[i].0@, by_both@[j].0@),
        0 <= i < j < by_both@.len() && by_both@[i].0@ == by_both@[j].0@ ==> crate::sort::text_le(
            by_both@[i].1@,
            by_both@[j].1@,
        ),
{
    let given = pairs_model(pairs@);
    let first = crate::sort::by_first::<Seq<char>>();
    let both = crate::sort::by_both();
    crate::sort::law_sort_keeps_items(given, first);
    crate::sort::law_sort_keeps_items(given, both);
    crate::sort::lemma_by_both_linear();
    assert(crate::sort::is_preorder(first)) by {
        assert forall|a: (Seq<char>, Seq<char>), b: (Seq<char>, Seq<char>)|
            #[trigger] first(a, b) || first(b, a) by {
            crate::sort::lemma_text_le_total(a.0, b.0);
        }
        assert forall|
            a: (Seq<char>, Seq<char>),
            b: (Seq<char>, Seq<char>),
            c: (Seq<char>, Seq<char>),
        |
            #[trigger] first(a, b) && #[trigger] first(b, c) implies first(a, c) by {
            crate::sort::lemma_text_le_transitive(a.0, b.0, c.0);
        }
    }
    crate::sort::law_sort_is_in_order(given, first);
    crate::sort::law_sort_is_in_order(given, both);
    if 0 <= i < j < by_name@.len() {
        let sorted = pairs_model(by_name@);
        assert(sorted[i] == (by_name@[i].0@, by_name@[i].1@));
        assert(sorted[j] == (by_name@[j].0@, by_name@[j].1@));
        assert(first(sorted[i], sorted[j]));
    }
    if 0 <= i < j < by_both@.len() {
        let sorted = pairs_model(by_both@);
        assert(sorted[i] == (by_both@[i].0@, by_both@[i].1@));
        assert(sorted[j] == (by_both@[j].0@, by_both@[j].1@));
        assert(both(sorted[i], sorted[j]));
        crate::sort::lemma_text_le_reflexive(sorted[i].0);
    }
}

/// A copy of a profile, of a table or of pairs is equal to it in every part.
pub proof fn law_copies_are_equal(
    profile: &HttpRequestProfile,
    copy: HttpRequestProfile,
    table: &HeaderTable,
    other: HeaderTable,
    pairs: &Vec<(String, String)>,
    copies: Vec<(String, String)>,
)
    requires
        call_ensures(HttpRequestProfile::clone, (profile,), copy),
        call_ensures(HeaderTable::clone, (table,), other),
        call_ensures(copy_pairs, (pairs,), copies),
    ensures
        copy.url@ == profile.url@,
        copy.method == profile.method,
        copy.headers@ == profile.headers@,
        copy.expected_status_codes@ == profile.expected_status_codes@,
        copy.require_json_response == profile.require_json_response,
        copy.max_response_bytes == profile.max_response_bytes,
        copy.timeout == profile.timeout,
        copy.allow_private_backends == profile.allow_private_backends,
        other@ == table@,
        copies@.len() == pairs@.len(),
        forall|i: int|
            0 <= i < pairs@.len() ==> (#[trigger] copies@[i]).0@ == pairs@[i].0@ && copies@[i].1@
                == pairs@[i].1@,
{
    let (a, b) = (pairs_model(copies@), pairs_model(pairs@));
    assert(a.len() == copies@.len() && b.len() == pairs@.len());
    assert forall|i: int| 0 <= i < pairs@.len() implies (#[trigger] copies@[i]).0@ == pairs@[i].0@
        && copies@[i].1@ == pairs@[i].1@ by {
        assert(a[i] == (copies@[i].0@, copies@[i].1@));
        assert(b[i] == (pairs@[i].0@, pairs@[i].1@));
    }
}

} // verus!

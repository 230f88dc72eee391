//! Ordering of text, and a stable sort by it.
//!
//! Strings are ordered by the code points of their characters, first
//! difference first. That is also the order of their UTF-8 bytes.

use crate::text::chars_of;
use vstd::prelude::*;

verus! {

/// Whether `a` is at or before `b`.
pub open spec fn text_le(a: Seq<char>, b: Seq<char>) -> bool
    decreases a.len(),
{
    if a.len() == 0 {
        true
    } else if b.len() == 0 {
        false
    } else if a.first() == b.first() {
        text_le(a.drop_first(), b.drop_first())
    } else {
        a.first() < b.first()
    }
}

/// [`text_le`] holds of a text and itself.
pub proof fn lemma_text_le_reflexive(a: Seq<char>)
    ensures
        text_le(a, a),
    decreases a.len(),
{
    if a.len() > 0 {
        lemma_text_le_reflexive(a.drop_first());
    }
}

/// Of two texts at least one is at or before the other, and both are only where
/// they are equal.
pub proof fn lemma_text_le_total(a: Seq<char>, b: Seq<char>)
    ensures
        text_le(a, b) || text_le(b, a),
        text_le(a, b) && text_le(b, a) ==> a == b,
    decreases a.len(),
{
    if a.len() == 0 {
        if b.len() == 0 {
            assert(a =~= b);
        }
    } else if b.len() > 0 && a.first() == b.first() {
        lemma_text_le_total(a.drop_first(), b.drop_first());
        if text_le(a, b) && text_le(b, a) {
            assert(a =~= seq![a.first()] + a.drop_first());
            assert(b =~= seq![b.first()] + b.drop_first());
        }
    }
}

/// [`text_le`] is transitive.
pub proof fn lemma_text_le_transitive(a: Seq<char>, b: Seq<char>, c: Seq<char>)
    requires
        text_le(a, b),
        text_le(b, c),
    ensures
        text_le(a, c),
    decreases a.len(),
{
    if a.len() > 0 && a.first() == b.first() && b.first() == c.first() {
        lemma_text_le_transitive(a.drop_first(), b.drop_first(), c.drop_first());
    }
}

/// Decides [`text_le`].
pub fn at_or_before(a: &str, b: &str) -> (yes: bool)
    ensures
        yes == text_le(a@, b@),
{
    let left = chars_of(a);
    let right = chars_of(b);
    let mut i: usize = 0;
    assert(left@.skip(0) =~= left@);
    assert(right@.skip(0) =~= right@);
    while i < left.len() && i < right.len() && left[i] == right[i]
        invariant
            i <= left@.len(),
            i <= right@.len(),
            text_le(left@, right@) == text_le(left@.skip(i as int), right@.skip(i as int)),
        decreases left@.len() - i,
    {
        assert(left@.skip(i as int).drop_first() =~= left@.skip(i + 1));
        assert(right@.skip(i as int).drop_first() =~= right@.skip(i + 1));
        i = i + 1;
    }
    if i >= left.len() {
        true
    } else if i >= right.len() {
        false
    } else {
        left[i] < right[i]
    }
}

/// A thing that can be sorted: it has a model, and its kind has an order on
/// models.
pub trait Sortable: Copy {
    /// What the order looks at.
    type Model;

    /// The model of this thing.
    spec fn model(&self) -> Self::Model;

    /// The order: whether the first model may stand before the second.
    spec fn order() -> spec_fn(Self::Model, Self::Model) -> bool;

    /// Decides the order on two things.
    fn may_precede(&self, other: &Self) -> (yes: bool)
        ensures
            yes == Self::order()(self.model(), other.model()),
    ;
}

/// `sorted` with `item` put behind everything that may precede it.
pub open spec fn insert_sorted<M>(sorted: Seq<M>, item: M, le: spec_fn(M, M) -> bool) -> Seq<M>
    decreases sorted.len(),
{
    if sorted.len() == 0 || le(sorted.last(), item) {
        sorted.push(item)
    } else {
        insert_sorted(sorted.drop_last(), item, le).push(sorted.last())
    }
}

/// The items in the order `le`; those that `le` does not tell apart keep the
/// order in which they came.
pub open spec fn stable_sort<M>(items: Seq<M>, le: spec_fn(M, M) -> bool) -> Seq<M>
    decreases items.len(),
{
    if items.len() == 0 {
        items
    } else {
        insert_sorted(stable_sort(items.drop_last(), le), items.last(), le)
    }
}

/// Where the new item goes: everything from `place` on may not precede it, and
/// what stands just before `place` may.
proof fn lemma_insert_at<M>(sorted: Seq<M>, item: M, le: spec_fn(M, M) -> bool, place: int)
    requires
        0 <= place <= sorted.len(),
        place > 0 ==> le(sorted[place - 1], item),
        forall|i: int| place <= i < sorted.len() ==> !le(#[trigger] sorted[i], item),
    ensures
        insert_sorted(sorted, item, le) == sorted.insert(place, item),
    decreases sorted.len() - place,
{
    if place < sorted.len() {
        let shorter = sorted.drop_last();
        lemma_insert_at(shorter, item, le, place);
        assert(shorter.insert(place, item).push(sorted.last()) =~= sorted.insert(place, item));
    } else {
        assert(sorted.push(item) =~= sorted.insert(place, item));
    }
}

/// The models of `items`, in order.
pub open spec fn models<T: Sortable>(items: Seq<T>) -> Seq<T::Model> {
    items.map_values(|item: T| item.model())
}

/// `items` in their order, sorted as [`stable_sort`] says.
pub fn sorted<T: Sortable>(items: &Vec<T>) -> (result: Vec<T>)
    ensures
        models(result@) == stable_sort(models(items@), T::order()),
{
    let ghost le = T::order();
    let ghost given = models(items@);
    let mut result: Vec<T> = Vec::new();
    let mut i: usize = 0;
    assert(models(result@) =~= stable_sort(given.take(0), le));
    while i < items.len()
        invariant
            i <= items@.len(),
            le == T::order(),
            given == models(items@),
            models(result@) == stable_sort(given.take(i as int), le),
        decreases items@.len() - i,
    {
        let item = items[i];
        let ghost so_far = models(result@);
        let mut place: usize = result.len();
        while place > 0 && !result[place - 1].may_precede(&item)
            invariant
                place <= result@.len(),
                so_far == models(result@),
                le == T::order(),
                forall|j: int|
                    place <= j < so_far.len() ==> !le(#[trigger] so_far[j], item.model()),
            decreases place,
        {
            place = place - 1;
        }
        proof {
            lemma_insert_at(so_far, item.model(), le, place as int);
            assert(given.take(i + 1).drop_last() =~= given.take(i as int));
        }
        result.insert(place, item);
        assert(models(result@) =~= so_far.insert(place as int, item.model()));
        i = i + 1;
    }
    assert(given.take(i as int) =~= given);
    result
}

/// Whether `le` is an order that a sort can follow: reflexive, transitive and
/// total.
pub open spec fn is_preorder<M>(le: spec_fn(M, M) -> bool) -> bool {
    &&& forall|a: M, b: M| #[trigger] le(a, b) || le(b, a)
    &&& forall|a: M, b: M, c: M| #[trigger] le(a, b) && #[trigger] le(b, c) ==> le(a, c)
}

/// Whether every item of `items` may stand before each one after it.
pub open spec fn in_order<M>(items: Seq<M>, le: spec_fn(M, M) -> bool) -> bool {
    forall|i: int, j: int|
        0 <= i < j < items.len() ==> le(#[trigger] items[i], #[trigger] items[j])
}

proof fn lemma_insert_sorted_place<M>(sorted: Seq<M>, item: M, le: spec_fn(M, M) -> bool) -> (place:
    int)
    requires
        is_preorder(le),
        in_order(sorted, le),
    ensures
        0 <= place <= sorted.len(),
        forall|i: int| 0 <= i < place ==> le(#[trigger] sorted[i], item),
        forall|i: int| place <= i < sorted.len() ==> !le(#[trigger] sorted[i], item),
        insert_sorted(sorted, item, le) == sorted.insert(place, item),
    decreases sorted.len(),
{
    if sorted.len() == 0 || le(sorted.last(), item) {
        let place = sorted.len() as int;
        lemma_insert_at(sorted, item, le, place);
        assert forall|i: int| 0 <= i < place implies le(#[trigger] sorted[i], item) by {
            if i < place - 1 {
                assert(le(sorted[i], sorted[place - 1]));
            }
        }
        place
    } else {
        let shorter = sorted.drop_last();
        let place = lemma_insert_sorted_place(shorter, item, le);
        assert forall|i: int| 0 <= i < place implies le(#[trigger] sorted[i], item) by {
            assert(shorter[i] == sorted[i]);
        }
        assert forall|i: int| place <= i < sorted.len() implies !le(#[trigger] sorted[i], item) by {
            if i < shorter.len() {
                assert(shorter[i] == sorted[i]);
            }
        }
        lemma_insert_at(sorted, item, le, place);
        place
    }
}

/// A stable sort brings its items in order.
pub proof fn law_sort_is_in_order<M>(items: Seq<M>, le: spec_fn(M, M) -> bool)
    requires
        is_preorder(le),
    ensures
        in_order(stable_sort(items, le), le),
    decreases items.len(),
{
    if items.len() > 0 {
        let before = stable_sort(items.drop_last(), le);
        let item = items.last();
        law_sort_is_in_order(items.drop_last(), le);
        let place = lemma_insert_sorted_place(before, item, le);
        let after = before.insert(place, item);
        assert forall|i: int, j: int| 0 <= i < j < after.len() implies le(
            #[trigger] after[i],
            #[trigger] after[j],
        ) by {
            if i == place {
                assert(after[j] == before[j - 1]);
                assert(!le(before[j - 1], item));
                assert(le(item, before[j - 1]) || le(before[j - 1], item));
            } else if j == place {
                assert(le(before[i], item));
            } else {
                let old_i = if i < place { i } else { i - 1 };
                let old_j = if j < place { j } else { j - 1 };
                assert(le(before[old_i], before[old_j]));
            }
        }
    }
}

/// A stable sort keeps every item as often as it came.
pub proof fn law_sort_keeps_items<M>(items: Seq<M>, le: spec_fn(M, M) -> bool)
    ensures
        stable_sort(items, le).to_multiset() == items.to_multiset(),
    decreases items.len(),
{
    if items.len() > 0 {
        let shorter = items.drop_last();
        law_sort_keeps_items(shorter, le);
        lemma_insert_sorted_keeps(stable_sort(shorter, le), items.last(), le);
        vstd::seq_lib::to_multiset_build(shorter, items.last());
        assert(shorter.push(items.last()) =~= items);
    }
}

proof fn lemma_insert_sorted_keeps<M>(sorted: Seq<M>, item: M, le: spec_fn(M, M) -> bool)
    ensures
        insert_sorted(sorted, item, le).to_multiset() == sorted.to_multiset().insert(item),
    decreases sorted.len(),
{
    if sorted.len() == 0 || le(sorted.last(), item) {
        vstd::seq_lib::to_multiset_build(sorted, item);
    } else {
        let shorter = sorted.drop_last();
        lemma_insert_sorted_keeps(shorter, item, le);
        vstd::seq_lib::to_multiset_build(insert_sorted(shorter, item, le), sorted.last());
        vstd::seq_lib::to_multiset_build(shorter, sorted.last());
        assert(shorter.push(sorted.last()) =~= sorted);
        assert(sorted.to_multiset().insert(item) =~= shorter.to_multiset().insert(item).insert(
            sorted.last(),
        ));
    }
}

/// Whether an item is one that `le` does not tell apart from `key`.
pub open spec fn level_with<M>(key: M, le: spec_fn(M, M) -> bool) -> spec_fn(M) -> bool {
    |item: M| le(item, key) && le(key, item)
}

/// Whether two sequences hold, for each key, the same items level with it, in
/// the same order: one is then a rearrangement of the other in which level
/// items keep their turn.
pub open spec fn same_up_to_order<M>(a: Seq<M>, b: Seq<M>, le: spec_fn(M, M) -> bool) -> bool {
    forall|key: M| #[trigger] a.filter(level_with(key, le)) == b.filter(level_with(key, le))
}

/// A stable sort leaves items that are level with each other in the order in
/// which they came.
pub proof fn law_sort_is_stable<M>(items: Seq<M>, le: spec_fn(M, M) -> bool, key: M)
    requires
        is_preorder(le),
    ensures
        stable_sort(items, le).filter(level_with(key, le)) == items.filter(level_with(key, le)),
    decreases items.len(),
{
    reveal(Seq::filter);
    if items.len() > 0 {
        let shorter = items.drop_last();
        let item = items.last();
        let before = stable_sort(shorter, le);
        let level = level_with(key, le);
        law_sort_is_stable(shorter, le, key);
        law_sort_is_in_order(shorter, le);
        let place = lemma_insert_sorted_place(before, item, le);
        let head = before.take(place);
        let tail = before.skip(place);
        assert(before =~= head + tail);
        assert(before.insert(place, item) =~= head.push(item) + tail);
        Seq::filter_distributes_over_add(head, tail, level);
        Seq::filter_distributes_over_add(head.push(item), tail, level);
        assert(head.push(item).drop_last() =~= head);
        if level(item) {
            assert forall|i: int| 0 <= i < tail.len() implies !level(#[trigger] tail[i]) by {
                assert(tail[i] == before[place + i]);
                if level(tail[i]) {
                    assert(le(tail[i], key) && le(key, item));
                }
            }
            lemma_filter_none(tail, level);
            assert(head.filter(level).push(item) + tail.filter(level) =~= (head.filter(level)
                + tail.filter(level)).push(item));
        }
    }
}

proof fn lemma_filter_none<M>(items: Seq<M>, keep: spec_fn(M) -> bool)
    requires
        forall|i: int| 0 <= i < items.len() ==> !keep(#[trigger] items[i]),
    ensures
        items.filter(keep) == Seq::<M>::empty(),
    decreases items.len(),
{
    reveal(Seq::filter);
    if items.len() > 0 {
        let shorter = items.drop_last();
        assert forall|i: int| 0 <= i < shorter.len() implies !keep(#[trigger] shorter[i]) by {
            assert(shorter[i] == items[i]);
        }
        lemma_filter_none(shorter, keep);
        assert(!keep(items[items.len() - 1]));
    }
}

proof fn lemma_in_order_unique<M>(a: Seq<M>, b: Seq<M>, le: spec_fn(M, M) -> bool)
    requires
        is_preorder(le),
        in_order(a, le),
        in_order(b, le),
        same_up_to_order(a, b, le),
    ensures
        a == b,
    decreases a.len(),
{
    reveal(Seq::filter);
    if a.len() == 0 || b.len() == 0 {
        if a.len() > 0 {
            assert(le(a.last(), a.last()));
            assert(a.filter(level_with(a.last(), le)).last() == a.last());
            assert(b.filter(level_with(a.last(), le)).len() == 0);
        }
        if b.len() > 0 {
            assert(le(b.last(), b.last()));
            assert(b.filter(level_with(b.last(), le)).last() == b.last());
            assert(a.filter(level_with(b.last(), le)).len() == 0);
        }
        assert(a =~= b);
    } else {
        lemma_last_is_highest(a, b, le);
        lemma_last_is_highest(b, a, le);
        let level = level_with(a.last(), le);
        assert(level(a.last()) && level(b.last()));
        assert(a.filter(level) == b.filter(level));
        assert(a.filter(level).last() == a.last());
        assert(b.filter(level).last() == b.last());
        let short_a = a.drop_last();
        let short_b = b.drop_last();
        assert forall|key: M| #[trigger] short_a.filter(level_with(key, le)) == short_b.filter(
            level_with(key, le),
        ) by {
            let keep = level_with(key, le);
            assert(a.filter(keep) == b.filter(keep));
            if keep(a.last()) {
                assert(a.filter(keep).drop_last() =~= short_a.filter(keep));
                assert(b.filter(keep).drop_last() =~= short_b.filter(keep));
            }
        }
        lemma_in_order_unique(short_a, short_b, le);
        assert(a =~= short_a.push(a.last()));
        assert(b =~= short_b.push(b.last()));
    }
}

proof fn lemma_last_is_highest<M>(a: Seq<M>, b: Seq<M>, le: spec_fn(M, M) -> bool)
    requires
        is_preorder(le),
        in_order(a, le),
        same_up_to_order(a, b, le),
        a.len() > 0,
        b.len() > 0,
    ensures
        le(b.last(), a.last()),
{
    reveal(Seq::filter);
    let keep = level_with(b.last(), le);
    assert(le(b.last(), b.last()));
    assert(b.filter(keep).last() == b.last());
    assert(a.filter(keep).len() > 0);
    let found = a.filter(keep)[0];
    assert(a.filter(keep).contains(found));
    a.lemma_filter_contains_rev(keep, found);
    a.lemma_filter_pred(keep, 0);
    let i = choose|i: int| 0 <= i < a.len() && a[i] == found;
    if i < a.len() - 1 {
        assert(le(a[i], a[a.len() - 1]));
    } else {
        assert(le(a.last(), a.last()));
    }
}

/// A stable sort does not depend on the order in which its items come, as long
/// as level items keep their turn.
pub proof fn law_sort_ignores_order<M>(a: Seq<M>, b: Seq<M>, le: spec_fn(M, M) -> bool)
    requires
        is_preorder(le),
        same_up_to_order(a, b, le),
    ensures
        stable_sort(a, le) == stable_sort(b, le),
{
    law_sort_is_in_order(a, le);
    law_sort_is_in_order(b, le);
    let sorted_a = stable_sort(a, le);
    let sorted_b = stable_sort(b, le);
    assert forall|key: M| #[trigger] sorted_a.filter(level_with(key, le)) == sorted_b.filter(
        level_with(key, le),
    ) by {
        law_sort_is_stable(a, le, key);
        law_sort_is_stable(b, le, key);
        assert(a.filter(level_with(key, le)) == b.filter(level_with(key, le)));
    }
    lemma_in_order_unique(sorted_a, sorted_b, le);
}

proof fn lemma_filter_equal<M>(items: Seq<M>, keep: spec_fn(M) -> bool, key: M)
    requires
        forall|item: M| #[trigger] keep(item) <==> item == key,
    ensures
        items.filter(keep).len() == items.to_multiset().count(key),
        forall|i: int| 0 <= i < items.filter(keep).len() ==> #[trigger] items.filter(keep)[i] == key,
    decreases items.len(),
{
    reveal(Seq::filter);
    broadcast use vstd::seq_lib::group_to_multiset_ensures;

    if items.len() > 0 {
        let shorter = items.drop_last();
        lemma_filter_equal(shorter, keep, key);
        vstd::seq_lib::to_multiset_build(shorter, items.last());
        assert(shorter.push(items.last()) =~= items);
    }
}

/// A sort by an order in which only equal things are level does not depend on the
/// order in which its items come.
pub proof fn law_linear_sort_ignores_order<M>(a: Seq<M>, b: Seq<M>, le: spec_fn(M, M) -> bool)
    requires
        is_linear(le),
        a.to_multiset() == b.to_multiset(),
    ensures
        stable_sort(a, le) == stable_sort(b, le),
{
    assert forall|key: M| #[trigger] a.filter(level_with(key, le)) == b.filter(
        level_with(key, le),
    ) by {
        let level = level_with(key, le);
        assert forall|item: M| #[trigger] level(item) <==> item == key by {
            assert(le(key, key));
            if level(item) {
                assert(le(item, key) && le(key, item));
            }
        }
        lemma_filter_equal(a, level, key);
        lemma_filter_equal(b, level, key);
        assert(a.filter(level) =~= b.filter(level));
    }
    law_sort_ignores_order(a, b, le);
}

/// The order of texts.
pub open spec fn by_text() -> spec_fn(Seq<char>, Seq<char>) -> bool {
    |a: Seq<char>, b: Seq<char>| text_le(a, b)
}

/// The order of pairs by their first text alone.
pub open spec fn by_first<V>() -> spec_fn((Seq<char>, V), (Seq<char>, V)) -> bool {
    |a: (Seq<char>, V), b: (Seq<char>, V)| text_le(a.0, b.0)
}

/// The order of pairs of texts: by the first text, and by the second where the
/// first are equal.
pub open spec fn by_both() -> spec_fn((Seq<char>, Seq<char>), (Seq<char>, Seq<char>)) -> bool {
    |a: (Seq<char>, Seq<char>), b: (Seq<char>, Seq<char>)|
        if a.0 == b.0 {
            text_le(a.1, b.1)
        } else {
            text_le(a.0, b.0)
        }
}

/// Whether `le` is an order in which only equal things are level.
pub open spec fn is_linear<M>(le: spec_fn(M, M) -> bool) -> bool {
    &&& is_preorder(le)
    &&& forall|a: M, b: M| #[trigger] le(a, b) && le(b, a) ==> a == b
}

/// [`by_text`] is a linear order.
pub proof fn lemma_by_text_linear()
    ensures
        is_linear(by_text()),
{
    let le = by_text();
    assert forall|a: Seq<char>, b: Seq<char>| #[trigger] le(a, b) || le(b, a) by {
        lemma_text_le_total(a, b);
    }
    assert forall|a: Seq<char>, b: Seq<char>| #[trigger] le(a, b) && le(b, a) implies a == b by {
        lemma_text_le_total(a, b);
    }
    assert forall|a: Seq<char>, b: Seq<char>, c: Seq<char>|
        #[trigger] le(a, b) && #[trigger] le(b, c) implies le(a, c) by {
        lemma_text_le_transitive(a, b, c);
    }
}

/// [`by_first`] is an order that a sort can follow.
pub proof fn lemma_by_first_preorder<V>()
    ensures
        is_preorder(by_first::<V>()),
{
    let le = by_first::<V>();
    assert forall|a: (Seq<char>, V), b: (Seq<char>, V)| #[trigger] le(a, b) || le(b, a) by {
        lemma_text_le_total(a.0, b.0);
    }
    assert forall|a: (Seq<char>, V), b: (Seq<char>, V), c: (Seq<char>, V)|
        #[trigger] le(a, b) && #[trigger] le(b, c) implies le(a, c) by {
        lemma_text_le_transitive(a.0, b.0, c.0);
    }
}

/// [`by_both`] is a linear order.
pub proof fn lemma_by_both_linear()
    ensures
        is_linear(by_both()),
{
    let le = by_both();
    assert forall|a: (Seq<char>, Seq<char>), b: (Seq<char>, Seq<char>)|
        #[trigger] le(a, b) || le(b, a) by {
        lemma_text_le_total(a.0, b.0);
        lemma_text_le_total(a.1, b.1);
    }
    assert forall|a: (Seq<char>, Seq<char>), b: (Seq<char>, Seq<char>)|
        #[trigger] le(a, b) && le(b, a) implies a == b by {
        lemma_text_le_total(a.0, b.0);
        lemma_text_le_total(a.1, b.1);
    }
    assert forall|
        a: (Seq<char>, Seq<char>),
        b: (Seq<char>, Seq<char>),
        c: (Seq<char>, Seq<char>),
    | #[trigger] le(a, b) && #[trigger] le(b, c) implies le(a, c) by {
        if a.0 == b.0 && b.0 == c.0 {
            lemma_text_le_transitive(a.1, b.1, c.1);
        } else if a.0 != b.0 && b.0 != c.0 {
            lemma_text_le_transitive(a.0, b.0, c.0);
            lemma_text_le_total(a.0, b.0);
        }
    }
}

/// Whether no two pairs have the same first text.
pub open spec fn distinct_firsts<V>(pairs: Seq<(Seq<char>, V)>) -> bool {
    forall|i: int, j: int|
        0 <= i < pairs.len() && 0 <= j < pairs.len() && #[trigger] pairs[i].0
            == #[trigger] pairs[j].0 ==> i == j
}

/// Two sequences of the same pairs, no first text twice, differ at most in a
/// way that a stable sort by the first text undoes.
pub proof fn law_distinct_firsts_sort_alike<V>(a: Seq<(Seq<char>, V)>, b: Seq<(Seq<char>, V)>)
    requires
        distinct_firsts(a),
        distinct_firsts(b),
        forall|pair: (Seq<char>, V)| #[trigger] a.contains(pair) <==> b.contains(pair),
    ensures
        stable_sort(a, by_first()) == stable_sort(b, by_first()),
{
    let le = by_first::<V>();
    assert forall|key: (Seq<char>, V)| #[trigger] a.filter(level_with(key, le)) == b.filter(
        level_with(key, le),
    ) by {
        let level = level_with(key, le);
        assert forall|pair: (Seq<char>, V)| #[trigger] level(pair) <==> pair.0 == key.0 by {
            lemma_text_le_total(pair.0, key.0);
            lemma_text_le_reflexive(key.0);
        }
        if exists|i: int| 0 <= i < a.len() && level(#[trigger] a[i]) {
            let i = choose|i: int| 0 <= i < a.len() && level(#[trigger] a[i]);
            assert(a.contains(a[i]));
            assert(b.contains(a[i]));
            let j = choose|j: int| 0 <= j < b.len() && b[j] == a[i];
            lemma_filter_one(a, level, i);
            lemma_filter_one(b, level, j);
        } else {
            lemma_filter_none(a, level);
            assert forall|j: int| 0 <= j < b.len() implies !level(#[trigger] b[j]) by {
                assert(b.contains(b[j]));
                assert(a.contains(b[j]));
                let i = choose|i: int| 0 <= i < a.len() && a[i] == b[j];
                assert(!level(a[i]));
            }
            lemma_filter_none(b, level);
        }
    }
    lemma_by_first_preorder::<V>();
    law_sort_ignores_order(a, b, le);
}

proof fn lemma_filter_one<M>(items: Seq<M>, keep: spec_fn(M) -> bool, place: int)
    requires
        0 <= place < items.len(),
        keep(items[place]),
        forall|i: int| 0 <= i < items.len() && i != place ==> !keep(#[trigger] items[i]),
    ensures
        items.filter(keep) == seq![items[place]],
{
    reveal(Seq::filter);
    let head = items.take(place);
    let tail = items.skip(place + 1);
    assert(items =~= head.push(items[place]) + tail);
    Seq::filter_distributes_over_add(head.push(items[place]), tail, keep);
    assert forall|i: int| 0 <= i < head.len() implies !keep(#[trigger] head[i]) by {
        assert(head[i] == items[i]);
    }
    assert forall|i: int| 0 <= i < tail.len() implies !keep(#[trigger] tail[i]) by {
        assert(tail[i] == items[place + 1 + i]);
    }
    lemma_filter_none(head, keep);
    lemma_filter_none(tail, keep);
    assert(head.push(items[place]).drop_last() =~= head);
    assert(items.filter(keep) =~= seq![items[place]]);
}

/// Whether each item may stand before every later one, and none of them the
/// other way round.
pub open spec fn strictly_in_order<M>(items: Seq<M>, le: spec_fn(M, M) -> bool) -> bool {
    forall|i: int, j: int|
        #![trigger items[i], items[j]]
        0 <= i < j < items.len() ==> le(items[i], items[j]) && !le(items[j], items[i])
}

/// `items` in their order, each once.
pub fn sorted_set<T: Sortable>(items: &Vec<T>) -> (result: Vec<T>)
    requires
        is_linear(T::order()),
    ensures
        strictly_in_order(models(result@), T::order()),
        forall|item: T::Model| #[trigger]
            models(result@).contains(item) <==> models(items@).contains(item),
{
    let ghost le = T::order();
    let ghost given = models(items@);
    let all = sorted(items);
    let ghost ordered = models(all@);
    proof {
        law_sort_is_in_order(given, le);
        law_sort_keeps_items(given, le);
    }
    let mut result: Vec<T> = Vec::new();
    let mut i: usize = 0;
    while i < all.len()
        invariant
            i <= all@.len(),
            ordered == models(all@),
            le == T::order(),
            is_linear(le),
            in_order(ordered, le),
            strictly_in_order(models(result@), le),
            i > 0 ==> result@.len() > 0,
            result@.len() > 0 ==> i > 0 && models(result@).last() == ordered[i - 1],
            forall|item: T::Model| #[trigger]
                models(result@).contains(item) <==> ordered.take(i as int).contains(item),
        decreases all@.len() - i,
    {
        let item = all[i];
        let ghost seen = models(result@);
        let ghost next = ordered[i as int];
        let fresh = result.len() == 0 || !item.may_precede(&result[result.len() - 1]);
        if fresh {
            result.push(item);
        }
        proof {
            assert(ordered.take(i + 1) =~= ordered.take(i as int).push(next));
            if fresh {
                assert(models(result@) =~= seen.push(next));
                assert forall|j: int, k: int|
                    #![trigger models(result@)[j], models(result@)[k]]
                    0 <= j < k < models(result@).len() implies le(
                    models(result@)[j],
                    models(result@)[k],
                ) && !le(models(result@)[k], models(result@)[j]) by {
                    if k == seen.len() {
                        if j < seen.len() - 1 {
                            assert(le(seen[j], seen.last()) && !le(seen.last(), seen[j]));
                        }
                        assert(le(ordered[i - 1], ordered[i as int]));
                        assert(le(seen.last(), next) && !le(next, seen.last()));
                    } else {
                        assert(le(seen[j], seen[k]) && !le(seen[k], seen[j]));
                    }
                }
                assert forall|m: T::Model| #[trigger]
                    models(result@).contains(m) <==> ordered.take(i + 1).contains(m) by {
                    lemma_push_contains(seen, next, m);
                    lemma_push_contains(ordered.take(i as int), next, m);
                }
            } else {
                assert(le(ordered[i - 1], ordered[i as int]));
                assert(seen.last() == next);
                assert(seen.contains(next));
                assert forall|m: T::Model| #[trigger]
                    models(result@).contains(m) <==> ordered.take(i + 1).contains(m) by {
                    lemma_push_contains(ordered.take(i as int), next, m);
                }
            }
        }
        i = i + 1;
    }
    proof {
        assert(ordered.take(i as int) =~= ordered);
        assert forall|m: T::Model| #[trigger] models(result@).contains(m) <==> given.contains(
            m,
        ) by {
            vstd::seq_lib::to_multiset_contains(ordered, m);
            vstd::seq_lib::to_multiset_contains(given, m);
        }
    }
    result
}

proof fn lemma_push_contains<M>(items: Seq<M>, last: M, item: M)
    ensures
        items.push(last).contains(item) <==> items.contains(item) || item == last,
{
    if items.contains(item) {
        let i = choose|i: int| 0 <= i < items.len() && items[i] == item;
        assert(items.push(last)[i] == item);
    }
    if item == last {
        assert(items.push(last)[items.len() as int] == item);
    }
}

/// Strictly ordered sequences of the same items are equal.
pub proof fn law_strict_order_unique<M>(a: Seq<M>, b: Seq<M>, le: spec_fn(M, M) -> bool)
    requires
        is_linear(le),
        strictly_in_order(a, le),
        strictly_in_order(b, le),
        forall|item: M| #[trigger] a.contains(item) <==> b.contains(item),
    ensures
        a == b,
{
    assert(in_order(a, le)) by {
        assert forall|i: int, j: int| 0 <= i < j < a.len() implies le(
            #[trigger] a[i],
            #[trigger] a[j],
        ) by {
            assert(le(a[i], a[j]) && !le(a[j], a[i]));
        }
    }
    assert(in_order(b, le)) by {
        assert forall|i: int, j: int| 0 <= i < j < b.len() implies le(
            #[trigger] b[i],
            #[trigger] b[j],
        ) by {
            assert(le(b[i], b[j]) && !le(b[j], b[i]));
        }
    }
    assert forall|key: M| #[trigger] a.filter(level_with(key, le)) == b.filter(
        level_with(key, le),
    ) by {
        lemma_strict_filter(a, le, key);
        lemma_strict_filter(b, le, key);
        assert(a.contains(key) <==> b.contains(key));
    }
    lemma_in_order_unique(a, b, le);
}

proof fn lemma_strict_filter<M>(items: Seq<M>, le: spec_fn(M, M) -> bool, key: M)
    requires
        is_linear(le),
        strictly_in_order(items, le),
    ensures
        items.filter(level_with(key, le)) == (if items.contains(key) {
            seq![key]
        } else {
            Seq::empty()
        }),
{
    let level = level_with(key, le);
    assert(le(key, key));
    if items.contains(key) {
        let place = choose|i: int| 0 <= i < items.len() && items[i] == key;
        assert forall|i: int| 0 <= i < items.len() && i != place implies !level(
            #[trigger] items[i],
        ) by {
            if i < place {
                assert(!le(items[place], items[i]));
            } else {
                assert(!le(items[i], items[place]));
            }
        }
        lemma_filter_one(items, level, place);
    } else {
        assert forall|i: int| 0 <= i < items.len() implies !level(#[trigger] items[i]) by {
            if level(items[i]) {
                assert(items[i] == key);
            }
        }
        lemma_filter_none(items, level);
    }
}

/// Texts are ordered as in a dictionary: one comes at or before another where it is the
/// start of it, or where at the first place at which they differ its character is the
/// smaller one.
pub proof fn law_text_order(common: Seq<char>, a: Seq<char>, b: Seq<char>)
    requires
        a.len() == 0 || b.len() == 0 || a[0] != b[0],
    ensures
        text_le(common + a, common + b) <==> a.len() == 0 || (b.len() > 0 && (a[0] as int) < (
        b[0] as int)),
    decreases common.len(),
{
    let (left, right) = (common + a, common + b);
    if common.len() > 0 {
        let rest = common.drop_first();
        assert(left.drop_first() =~= rest + a);
        assert(right.drop_first() =~= rest + b);
        assert(left.first() == common[0] && right.first() == common[0]);
        law_text_order(rest, a, b);
    } else {
        assert(left =~= a);
        assert(right =~= b);
    }
}

/// Pairs are ordered by their first texts, and by their second texts where the first are
/// equal.
pub proof fn law_pair_order(a: (Seq<char>, Seq<char>), b: (Seq<char>, Seq<char>))
    ensures
        by_first::<Seq<char>>()(a, b) <==> text_le(a.0, b.0),
        a.0 != b.0 ==> (by_both()(a, b) <==> text_le(a.0, b.0)),
        a.0 == b.0 ==> (by_both()(a, b) <==> text_le(a.1, b.1)),
        by_text()(a.0, b.0) <==> text_le(a.0, b.0),
{
}

} // verus!

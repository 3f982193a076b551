//! Byte-string comparison and stable sorting.

use vstd::prelude::*;
use vstd::string::*;
use vstd::utf8::encode_utf8;

verus! {

/// Whether `left` comes strictly before `right` in lexicographic byte order.
pub open spec fn bytes_less(left: Seq<u8>, right: Seq<u8>) -> bool
    decreases left.len(),
{
    if right.len() == 0 {
        false
    } else if left.len() == 0 {
        true
    } else if left[0] != right[0] {
        left[0] < right[0]
    } else {
        bytes_less(left.drop_first(), right.drop_first())
    }
}

/// Two byte strings that agree on their first `at` bytes compare as what follows them.
proof fn lemma_bytes_less_skip(left: Seq<u8>, right: Seq<u8>, at: int)
    requires
        0 <= at <= left.len(),
        at <= right.len(),
        left.subrange(0, at) == right.subrange(0, at),
    ensures
        bytes_less(left, right) == bytes_less(left.skip(at), right.skip(at)),
    decreases at,
{
    if at == 0 {
        assert(left.skip(0) =~= left);
        assert(right.skip(0) =~= right);
    } else {
        assert(left[0] == left.subrange(0, at)[0]);
        assert(right[0] == right.subrange(0, at)[0]);
        assert(left.drop_first().subrange(0, at - 1) =~= left.subrange(0, at).drop_first());
        assert(right.drop_first().subrange(0, at - 1) =~= right.subrange(0, at).drop_first());
        lemma_bytes_less_skip(left.drop_first(), right.drop_first(), at - 1);
        assert(left.drop_first().skip(at - 1) =~= left.skip(at));
        assert(right.drop_first().skip(at - 1) =~= right.skip(at));
    }
}

/// No byte string comes before itself.
pub proof fn lemma_bytes_less_irreflexive(bytes: Seq<u8>)
    ensures
        !bytes_less(bytes, bytes),
    decreases bytes.len(),
{
    if bytes.len() > 0 {
        lemma_bytes_less_irreflexive(bytes.drop_first());
    }
}

/// Byte order is transitive.
pub proof fn lemma_bytes_less_transitive(first: Seq<u8>, second: Seq<u8>, third: Seq<u8>)
    requires
        bytes_less(first, second),
        bytes_less(second, third),
    ensures
        bytes_less(first, third),
    decreases first.len(),
{
    if first.len() > 0 && second.len() > 0 && third.len() > 0 && first[0] == second[0] && second[0]
        == third[0] {
        lemma_bytes_less_transitive(first.drop_first(), second.drop_first(), third.drop_first());
    }
}

/// Of two different byte strings exactly one comes before the other.
pub proof fn lemma_bytes_less_total(left: Seq<u8>, right: Seq<u8>)
    ensures
        bytes_less(left, right) || bytes_less(right, left) || left == right,
        !(bytes_less(left, right) && bytes_less(right, left)),
        bytes_less(left, right) ==> left != right,
    decreases left.len(),
{
    if left.len() > 0 && right.len() > 0 && left[0] == right[0] {
        lemma_bytes_less_total(left.drop_first(), right.drop_first());
        if left.drop_first() == right.drop_first() {
            assert(left =~= seq![left[0]] + left.drop_first());
            assert(right =~= seq![right[0]] + right.drop_first());
        }
    } else {
        assert(left.len() == 0 && right.len() == 0 ==> left =~= right);
    }
}

/// Compare two byte strings for equality.
pub fn bytes_equal(left: &[u8], right: &[u8]) -> (equal: bool)
    ensures
        equal == (left@ == right@),
{
    if left.len() != right.len() {
        return false;
    }
    let mut at: usize = 0;
    while at < left.len()
        invariant
            left.len() == right.len(),
            at <= left.len(),
            forall|i: int| 0 <= i < at ==> left@[i] == right@[i],
        decreases left.len() - at,
    {
        if left[at] != right[at] {
            return false;
        }
        at = at + 1;
    }
    assert(left@ =~= right@);
    true
}

/// Whether `left` comes strictly before `right` in lexicographic byte order.
pub fn bytes_before(left: &[u8], right: &[u8]) -> (before: bool)
    ensures
        before == bytes_less(left@, right@),
{
    let mut at: usize = 0;
    while at < left.len() && at < right.len() && left[at] == right[at]
        invariant
            at <= left.len(),
            at <= right.len(),
            left@.subrange(0, at as int) == right@.subrange(0, at as int),
        decreases left.len() - at,
    {
        assert(left@.subrange(0, at + 1) =~= left@.subrange(0, at as int).push(left@[at as int]));
        assert(right@.subrange(0, at + 1) =~= right@.subrange(0, at as int).push(
            right@[at as int],
        ));
        at = at + 1;
    }
    proof {
        lemma_bytes_less_skip(left@, right@, at as int);
        if at < left.len() {
            assert(left@.skip(at as int)[0] == left@[at as int]);
        }
        if at < right.len() {
            assert(right@.skip(at as int)[0] == right@[at as int]);
        }
    }
    if at == right.len() {
        false
    } else if at == left.len() {
        true
    } else {
        left[at] < right[at]
    }
}

/// Values that a stable sort can put in order.
pub trait Ranked: Sized {
    /// Whether this value has to stand before `other`.
    spec fn precedes(&self, other: &Self) -> bool;

    /// Whether this value has to stand before `other`.
    fn comes_before(&self, other: &Self) -> (before: bool)
        ensures
            before == self.precedes(other),
    ;
}

/// Text is ranked by its UTF-8 bytes.
impl Ranked for String {
    open spec fn precedes(&self, other: &Self) -> bool {
        bytes_less(encode_utf8(self@), encode_utf8(other@))
    }

    fn comes_before(&self, other: &Self) -> (before: bool) {
        bytes_before(self.as_str().as_bytes(), other.as_str().as_bytes())
    }
}

/// Byte strings are ranked lexicographically.
impl Ranked for Vec<u8> {
    open spec fn precedes(&self, other: &Self) -> bool {
        bytes_less(self@, other@)
    }

    fn comes_before(&self, other: &Self) -> (before: bool) {
        bytes_before(self.as_slice(), other.as_slice())
    }
}

/// `items` with `item` put behind every item that it does not have to precede.
pub open spec fn insert_ranked<T: Ranked>(items: Seq<T>, item: T) -> Seq<T>
    decreases items.len(),
{
    if items.len() == 0 || !item.precedes(&items.last()) {
        items.push(item)
    } else {
        insert_ranked(items.drop_last(), item).push(items.last())
    }
}

/// `items` in order, with items of equal rank in their given order.
pub open spec fn ranked<T: Ranked>(items: Seq<T>) -> Seq<T>
    decreases items.len(),
{
    if items.len() == 0 {
        items
    } else {
        insert_ranked(ranked(items.drop_last()), items.last())
    }
}

/// `items` with `item` put behind every item that it does not have to precede.
pub open spec fn insert_by<A>(items: Seq<A>, item: A, before: spec_fn(A, A) -> bool) -> Seq<A>
    decreases items.len(),
{
    if items.len() == 0 || !before(item, items.last()) {
        items.push(item)
    } else {
        insert_by(items.drop_last(), item, before).push(items.last())
    }
}

/// `items` in the order of `before`, with items of equal rank in their given order.
pub open spec fn sorted_by<A>(items: Seq<A>, before: spec_fn(A, A) -> bool) -> Seq<A>
    decreases items.len(),
{
    if items.len() == 0 {
        items
    } else {
        insert_by(sorted_by(items.drop_last(), before), items.last(), before)
    }
}

/// Whether a text stands before another in the order of their UTF-8 bytes.
pub open spec fn text_before() -> spec_fn(Seq<char>, Seq<char>) -> bool {
    |left: Seq<char>, right: Seq<char>| bytes_less(encode_utf8(left), encode_utf8(right))
}

/// Whether a byte string stands before another.
pub open spec fn byte_string_before() -> spec_fn(Seq<u8>, Seq<u8>) -> bool {
    |left: Seq<u8>, right: Seq<u8>| bytes_less(left, right)
}

proof fn lemma_insert_ranked_view<T: Ranked, A>(
    items: Seq<T>,
    item: T,
    view: spec_fn(T) -> A,
    before: spec_fn(A, A) -> bool,
)
    requires
        forall|a: T, b: T| #[trigger] a.precedes(&b) == before(view(a), view(b)),
    ensures
        insert_ranked(items, item).map_values(view) == insert_by(
            items.map_values(view),
            view(item),
            before,
        ),
    decreases items.len(),
{
    let mapped = items.map_values(view);
    if items.len() == 0 || !item.precedes(&items.last()) {
        assert(insert_ranked(items, item).map_values(view) =~= mapped.push(view(item)));
    } else {
        lemma_insert_ranked_view(items.drop_last(), item, view, before);
        assert(mapped.drop_last() =~= items.drop_last().map_values(view));
        assert(insert_ranked(items, item).map_values(view) =~= insert_ranked(
            items.drop_last(),
            item,
        ).map_values(view).push(view(items.last())));
    }
}

/// Sorting values sorts what they say.
pub proof fn lemma_ranked_view<T: Ranked, A>(
    items: Seq<T>,
    view: spec_fn(T) -> A,
    before: spec_fn(A, A) -> bool,
)
    requires
        forall|a: T, b: T| #[trigger] a.precedes(&b) == before(view(a), view(b)),
    ensures
        ranked(items).map_values(view) == sorted_by(items.map_values(view), before),
    decreases items.len(),
{
    if items.len() == 0 {
        assert(ranked(items).map_values(view) =~= items.map_values(view));
    } else {
        lemma_ranked_view(items.drop_last(), view, before);
        lemma_insert_ranked_view(ranked(items.drop_last()), items.last(), view, before);
        assert(items.map_values(view).drop_last() =~= items.drop_last().map_values(view));
    }
}

proof fn lemma_insert_map<A, B>(
    items: Seq<A>,
    item: A,
    view: spec_fn(A) -> B,
    before: spec_fn(A, A) -> bool,
    view_before: spec_fn(B, B) -> bool,
)
    requires
        forall|a: A, b: A| #[trigger] before(a, b) == view_before(view(a), view(b)),
    ensures
        insert_by(items, item, before).map_values(view) == insert_by(
            items.map_values(view),
            view(item),
            view_before,
        ),
    decreases items.len(),
{
    let mapped = items.map_values(view);
    let result = insert_by(items, item, before);
    if items.len() == 0 || !before(item, items.last()) {
        assert(result.map_values(view) =~= mapped.push(view(item)));
    } else {
        lemma_insert_map(items.drop_last(), item, view, before, view_before);
        assert(mapped.drop_last() =~= items.drop_last().map_values(view));
        assert(result.map_values(view) =~= insert_by(
            items.drop_last(),
            item,
            before,
        ).map_values(view).push(view(items.last())));
    }
}

/// Sorting by what items say sorts what they say.
pub proof fn lemma_sorted_map<A, B>(
    items: Seq<A>,
    view: spec_fn(A) -> B,
    before: spec_fn(A, A) -> bool,
    view_before: spec_fn(B, B) -> bool,
)
    requires
        forall|a: A, b: A| #[trigger] before(a, b) == view_before(view(a), view(b)),
    ensures
        sorted_by(items, before).map_values(view) == sorted_by(
            items.map_values(view),
            view_before,
        ),
    decreases items.len(),
{
    if items.len() == 0 {
        assert(sorted_by(items, before).map_values(view) =~= items.map_values(view));
    } else {
        let shorter = items.drop_last();
        lemma_sorted_map(shorter, view, before, view_before);
        lemma_insert_map(sorted_by(shorter, before), items.last(), view, before, view_before);
        assert(items.map_values(view).drop_last() =~= shorter.map_values(view));
    }
}

/// Whether `before` is irreflexive and transitive, and ties are transitive.
pub open spec fn is_strict_weak_order<A>(before: spec_fn(A, A) -> bool) -> bool {
    &&& forall|a: A| !#[trigger] before(a, a)
    &&& forall|a: A, b: A, c: A|
        #![trigger before(a, b), before(b, c)]
        before(a, b) && before(b, c) ==> before(a, c)
    &&& forall|a: A, b: A, c: A|
        #![trigger before(a, c), before(a, b)]
        before(a, c) ==> before(a, b) || before(b, c)
}

/// Whether no item has to stand before one that it stands behind.
pub open spec fn in_order<A>(items: Seq<A>, before: spec_fn(A, A) -> bool) -> bool {
    forall|i: int, j: int|
        #![trigger items[i], items[j]]
        0 <= i < j < items.len() ==> !before(items[j], items[i])
}

/// Whether `before` decides between every two items that differ.
pub open spec fn no_ties<A>(items: Seq<A>, before: spec_fn(A, A) -> bool) -> bool {
    forall|i: int, j: int|
        #![trigger items[i], items[j]]
        0 <= i < items.len() && 0 <= j < items.len() && i != j ==> before(items[i], items[j])
            || before(items[j], items[i]) || items[i] == items[j]
}

proof fn lemma_insert_by_items<A>(items: Seq<A>, item: A, before: spec_fn(A, A) -> bool)
    ensures
        insert_by(items, item, before).to_multiset() =~= items.push(item).to_multiset(),
        insert_by(items, item, before).len() == items.len() + 1,
    decreases items.len(),
{
    broadcast use vstd::seq_lib::group_to_multiset_ensures;

    if items.len() > 0 && before(item, items.last()) {
        lemma_insert_by_items(items.drop_last(), item, before);
        assert(items =~= items.drop_last().push(items.last()));
    }
}

/// Sorting keeps exactly the given items.
pub proof fn lemma_sorted_is_permutation<A>(items: Seq<A>, before: spec_fn(A, A) -> bool)
    ensures
        sorted_by(items, before).to_multiset() =~= items.to_multiset(),
        sorted_by(items, before).len() == items.len(),
    decreases items.len(),
{
    broadcast use vstd::seq_lib::group_to_multiset_ensures;

    if items.len() > 0 {
        lemma_sorted_is_permutation(items.drop_last(), before);
        lemma_insert_by_items(sorted_by(items.drop_last(), before), items.last(), before);
        assert(items =~= items.drop_last().push(items.last()));
    }
}

proof fn lemma_insert_by_order<A>(items: Seq<A>, item: A, before: spec_fn(A, A) -> bool)
    requires
        is_strict_weak_order(before),
        in_order(items, before),
    ensures
        in_order(insert_by(items, item, before), before),
        forall|i: int|
            0 <= i < items.len() + 1 ==> (#[trigger] insert_by(items, item, before)[i] == item
                || items.contains(insert_by(items, item, before)[i])),
        insert_by(items, item, before).len() == items.len() + 1,
    decreases items.len(),
{
    let result = insert_by(items, item, before);
    if items.len() == 0 || !before(item, items.last()) {
        assert forall|i: int, j: int| 0 <= i < j < result.len() implies !before(
            #[trigger] result[j],
            #[trigger] result[i],
        ) by {
            if j == items.len() {
                if before(item, items[i]) {
                    if i < items.len() - 1 {
                        assert(!before(items[items.len() - 1], items[i]));
                    }
                    assert(before(item, items[items.len() - 1]) || before(
                        items[items.len() - 1],
                        items[i],
                    ));
                }
            } else {
                assert(items[i] == result[i] && items[j] == result[j]);
            }
        }
        assert forall|i: int| 0 <= i < result.len() implies (#[trigger] result[i] == item
            || items.contains(result[i])) by {
            if i < items.len() {
                assert(items[i] == result[i]);
            }
        }
    } else {
        let shorter = items.drop_last();
        lemma_insert_by_order(shorter, item, before);
        let inner = insert_by(shorter, item, before);
        assert(result == inner.push(items.last()));
        assert forall|i: int| 0 <= i < result.len() implies (#[trigger] result[i] == item
            || items.contains(result[i])) by {
            if i == items.len() {
                assert(items[items.len() - 1] == result[i]);
            } else {
                assert(result[i] == inner[i]);
                if shorter.contains(inner[i]) {
                    let k = shorter.index_of(inner[i]);
                    assert(items[k] == inner[i]);
                }
            }
        }
        assert forall|i: int, j: int| 0 <= i < j < result.len() implies !before(
            #[trigger] result[j],
            #[trigger] result[i],
        ) by {
            if j == items.len() {
                assert(result[i] == inner[i]);
                if inner[i] == item {
                    if before(items.last(), item) {
                        assert(before(item, item));
                    }
                } else {
                    let k = shorter.index_of(inner[i]);
                    assert(items[k] == inner[i]);
                    assert(!before(items[items.len() - 1], items[k]));
                }
            } else {
                assert(inner[i] == result[i] && inner[j] == result[j]);
            }
        }
    }
}

/// The sorted items stand in order.
pub proof fn lemma_sorted_is_in_order<A>(items: Seq<A>, before: spec_fn(A, A) -> bool)
    requires
        is_strict_weak_order(before),
    ensures
        in_order(sorted_by(items, before), before),
    decreases items.len(),
{
    if items.len() > 0 {
        lemma_sorted_is_in_order(items.drop_last(), before);
        lemma_insert_by_order(sorted_by(items.drop_last(), before), items.last(), before);
    }
}

/// Where an item of one list stands in a list of the same items.
proof fn lemma_place_of<A>(left: Seq<A>, right: Seq<A>, i: int) -> (j: int)
    requires
        left.to_multiset() == right.to_multiset(),
        0 <= i < left.len(),
    ensures
        0 <= j < right.len(),
        right[j] == left[i],
{
    broadcast use vstd::seq_lib::group_to_multiset_ensures;

    assert(left.contains(left[i]));
    assert(left.to_multiset().count(left[i]) > 0);
    assert(right.contains(left[i]));
    right.index_of(left[i])
}

/// Lists of the same items, in whichever order, are mapped to lists of the same items.
pub proof fn lemma_map_keeps_items<A, B>(left: Seq<A>, right: Seq<A>, view: spec_fn(A) -> B)
    requires
        left.to_multiset() == right.to_multiset(),
    ensures
        left.map_values(view).to_multiset() == right.map_values(view).to_multiset(),
    decreases left.len(),
{
    broadcast use vstd::seq_lib::group_to_multiset_ensures;

    assert(left.to_multiset().len() == left.len());
    assert(right.to_multiset().len() == right.len());
    let (a, b) = (left.map_values(view), right.map_values(view));
    if left.len() == 0 {
        assert(a =~= b);
    } else {
        let end = left.len() - 1;
        let at = lemma_place_of(left, right, end);
        let (shorter, rest) = (left.drop_last(), right.remove(at));
        assert(left =~= shorter.push(left[end]));
        assert(left.to_multiset() == shorter.to_multiset().insert(left[end]));
        assert(rest.to_multiset() == right.to_multiset().remove(left[end]));
        assert(shorter.to_multiset() =~= rest.to_multiset());
        lemma_map_keeps_items(shorter, rest, view);
        assert(a =~= shorter.map_values(view).push(view(left[end])));
        assert(b.remove(at) =~= rest.map_values(view));
        assert(b[at] == view(left[end]));
        assert(b.contains(b[at]));
        assert(a.to_multiset() =~= b.to_multiset());
    }
}

/// Lists of the same items are the same when both stand in order and no two items tie.
pub proof fn lemma_strictly_ordered_unique<A>(
    left: Seq<A>,
    right: Seq<A>,
    before: spec_fn(A, A) -> bool,
)
    requires
        left.to_multiset() == right.to_multiset(),
        in_order(left, before),
        in_order(right, before),
        no_ties(left, before),
        is_strict_weak_order(before),
    ensures
        left == right,
    decreases left.len(),
{
    broadcast use vstd::seq_lib::group_to_multiset_ensures;

    assert(left.to_multiset().len() == left.len());
    assert(right.to_multiset().len() == right.len());
    if left.len() == 0 {
        assert(left =~= right);
    } else {
        let end = left.len() - 1;
        let at = lemma_place_of(left, right, end);
        let back = lemma_place_of(right, left, end);
        if left[back] != left[end] {
            assert(before(left[back], left[end]) || before(left[end], left[back]) || left[back]
                == left[end]);
            assert(!before(left[end], left[back]));
            assert(at != end);
            assert(!before(right[end], right[at]));
        }
        assert(left.last() == right.last());
        assert(left =~= left.drop_last().push(left.last()));
        assert(right =~= right.drop_last().push(right.last()));
        assert(left.drop_last().to_multiset() =~= right.drop_last().to_multiset()) by {
            assert(left.to_multiset() == left.drop_last().to_multiset().insert(left.last()));
            assert(right.to_multiset() == right.drop_last().to_multiset().insert(right.last()));
            assert(left.drop_last().to_multiset() =~= left.to_multiset().remove(left.last()));
            assert(right.drop_last().to_multiset() =~= right.to_multiset().remove(right.last()));
        }
        assert(in_order(left.drop_last(), before)) by {
            assert forall|i: int, j: int|
                0 <= i < j < left.drop_last().len() implies !before(
                #[trigger] left.drop_last()[j],
                #[trigger] left.drop_last()[i],
            ) by {
                assert(!before(left[j], left[i]));
            }
        }
        assert(in_order(right.drop_last(), before)) by {
            assert forall|i: int, j: int|
                0 <= i < j < right.drop_last().len() implies !before(
                #[trigger] right.drop_last()[j],
                #[trigger] right.drop_last()[i],
            ) by {
                assert(!before(right[j], right[i]));
            }
        }
        assert(no_ties(left.drop_last(), before)) by {
            assert forall|i: int, j: int|
                0 <= i < left.drop_last().len() && 0 <= j < left.drop_last().len() && i
                    != j implies before(
                #[trigger] left.drop_last()[i],
                #[trigger] left.drop_last()[j],
            ) || before(left.drop_last()[j], left.drop_last()[i]) || left.drop_last()[i]
                == left.drop_last()[j] by {
                assert(before(left[i], left[j]) || before(left[j], left[i]) || left[i] == left[j]);
            }
        }
        lemma_strictly_ordered_unique(left.drop_last(), right.drop_last(), before);
    }
}

proof fn lemma_insert_by_no_ties<A>(items: Seq<A>, item: A, before: spec_fn(A, A) -> bool)
    requires
        no_ties(items, before),
        forall|i: int|
            0 <= i < items.len() ==> before(#[trigger] items[i], item) || before(item, items[i])
                || items[i] == item,
    ensures
        no_ties(insert_by(items, item, before), before),
        insert_by(items, item, before).len() == items.len() + 1,
        forall|i: int|
            0 <= i < items.len() + 1 ==> (#[trigger] insert_by(items, item, before)[i] == item
                || items.contains(insert_by(items, item, before)[i])),
    decreases items.len(),
{
    let result = insert_by(items, item, before);
    if items.len() == 0 || !before(item, items.last()) {
        assert forall|i: int| 0 <= i < result.len() implies (#[trigger] result[i] == item
            || items.contains(result[i])) by {
            if i < items.len() {
                assert(items[i] == result[i]);
            }
        }
        assert forall|i: int, j: int|
            0 <= i < result.len() && 0 <= j < result.len() && i != j implies before(
            #[trigger] result[i],
            #[trigger] result[j],
        ) || before(result[j], result[i]) || result[i] == result[j] by {
            if i < items.len() {
                assert(items[i] == result[i]);
            }
            if j < items.len() {
                assert(items[j] == result[j]);
            }
        }
    } else {
        let shorter = items.drop_last();
        assert forall|i: int| 0 <= i < shorter.len() implies before(#[trigger] shorter[i], item)
            || before(item, shorter[i]) || shorter[i] == item by {
            assert(items[i] == shorter[i]);
        }
        assert forall|i: int, j: int|
            0 <= i < shorter.len() && 0 <= j < shorter.len() && i != j implies before(
            #[trigger] shorter[i],
            #[trigger] shorter[j],
        ) || before(shorter[j], shorter[i]) || shorter[i] == shorter[j] by {
            assert(items[i] == shorter[i] && items[j] == shorter[j]);
        }
        lemma_insert_by_no_ties(shorter, item, before);
        let inner = insert_by(shorter, item, before);
        let last = items[items.len() - 1];
        assert forall|i: int| 0 <= i < inner.len() implies before(#[trigger] inner[i], last)
            || before(last, inner[i]) || inner[i] == last by {
            if inner[i] != item {
                let k = shorter.index_of(inner[i]);
                assert(items[k] == inner[i]);
            }
        }
        assert forall|i: int| 0 <= i < result.len() implies (#[trigger] result[i] == item
            || items.contains(result[i])) by {
            if i == items.len() {
                assert(items[items.len() - 1] == result[i]);
            } else {
                assert(result[i] == inner[i]);
                if shorter.contains(inner[i]) {
                    let k = shorter.index_of(inner[i]);
                    assert(items[k] == inner[i]);
                }
            }
        }
        assert forall|i: int, j: int|
            0 <= i < result.len() && 0 <= j < result.len() && i != j implies before(
            #[trigger] result[i],
            #[trigger] result[j],
        ) || before(result[j], result[i]) || result[i] == result[j] by {
            if i < inner.len() {
                assert(inner[i] == result[i]);
            }
            if j < inner.len() {
                assert(inner[j] == result[j]);
            }
        }
    }
}

proof fn lemma_sorted_no_ties<A>(items: Seq<A>, before: spec_fn(A, A) -> bool)
    requires
        no_ties(items, before),
    ensures
        no_ties(sorted_by(items, before), before),
        sorted_by(items, before).len() == items.len(),
        forall|i: int|
            0 <= i < items.len() ==> items.contains(#[trigger] sorted_by(items, before)[i]),
    decreases items.len(),
{
    if items.len() > 0 {
        let shorter = items.drop_last();
        let last = items[items.len() - 1];
        assert forall|i: int, j: int|
            0 <= i < shorter.len() && 0 <= j < shorter.len() && i != j implies before(
            #[trigger] shorter[i],
            #[trigger] shorter[j],
        ) || before(shorter[j], shorter[i]) || shorter[i] == shorter[j] by {
            assert(items[i] == shorter[i] && items[j] == shorter[j]);
        }
        lemma_sorted_no_ties(shorter, before);
        let inner = sorted_by(shorter, before);
        assert forall|i: int| 0 <= i < inner.len() implies before(#[trigger] inner[i], last)
            || before(last, inner[i]) || inner[i] == last by {
            let k = shorter.index_of(inner[i]);
            assert(items[k] == inner[i]);
        }
        lemma_insert_by_no_ties(inner, last, before);
        let result = sorted_by(items, before);
        assert forall|i: int| 0 <= i < items.len() implies items.contains(
            #[trigger] result[i],
        ) by {
            assert(items[items.len() - 1] == last);
            if result[i] != last {
                let k = inner.index_of(result[i]);
                assert(shorter.contains(inner[k]));
                let m = shorter.index_of(inner[k]);
                assert(items[m] == result[i]);
            }
        }
    }
}

/// The order in which items are given is irrelevant once they are sorted, unless two different
/// ones tie.
pub proof fn lemma_given_order_is_irrelevant<A>(
    left: Seq<A>,
    right: Seq<A>,
    before: spec_fn(A, A) -> bool,
)
    requires
        is_strict_weak_order(before),
        no_ties(left, before),
        left.to_multiset() == right.to_multiset(),
    ensures
        sorted_by(left, before) == sorted_by(right, before),
{
    lemma_sorted_is_permutation(left, before);
    lemma_sorted_is_permutation(right, before);
    lemma_sorted_is_in_order(left, before);
    lemma_sorted_is_in_order(right, before);
    lemma_sorted_no_ties(left, before);
    lemma_strictly_ordered_unique(sorted_by(left, before), sorted_by(right, before), before);
}

/// Comparing byte strings that stand for items is a strict weak order on the items.
pub proof fn lemma_bytes_order<A>(key: spec_fn(A) -> Seq<u8>, before: spec_fn(A, A) -> bool)
    requires
        forall|a: A, b: A| #[trigger] before(a, b) == bytes_less(key(a), key(b)),
    ensures
        is_strict_weak_order(before),
{
    assert forall|a: A| !#[trigger] before(a, a) by {
        lemma_bytes_less_irreflexive(key(a));
    }
    assert forall|a: A, b: A, c: A|
        #![trigger before(a, b), before(b, c)]
        before(a, b) && before(b, c) implies before(a, c) by {
        lemma_bytes_less_transitive(key(a), key(b), key(c));
    }
    assert forall|a: A, b: A, c: A|
        #![trigger before(a, c), before(a, b)]
        before(a, c) implies before(a, b) || before(b, c) by {
        lemma_bytes_less_total(key(a), key(b));
        lemma_bytes_less_total(key(b), key(c));
        if !before(a, b) && !before(b, c) {
            assert(before(b, c) == bytes_less(key(b), key(c)));
            if key(a) != key(b) {
                if key(b) != key(c) {
                    lemma_bytes_less_transitive(key(c), key(b), key(a));
                }
                lemma_bytes_less_transitive(key(a), key(c), key(a));
                lemma_bytes_less_irreflexive(key(a));
            }
        }
    }
}

/// Sort `items` stably.
pub fn sort_ranked<T: Ranked>(items: &mut Vec<T>)
    ensures
        final(items)@ == ranked(old(items)@),
{
    let mut sorted: Vec<T> = Vec::new();
    let ghost all = items@;
    let ghost mut taken: int = 0;
    while items.len() > 0
        invariant
            0 <= taken <= all.len(),
            items@ == all.skip(taken),
            sorted@ == ranked(all.take(taken)),
        decreases items.len(),
    {
        let item = items.remove(0);
        assert(item == all[taken]);
        let ghost before = sorted@;
        let mut at: usize = sorted.len();
        assert(before.take(at as int) =~= before);
        assert(before.skip(at as int) =~= Seq::<T>::empty());
        while at > 0 && item.comes_before(&sorted[at - 1])
            invariant
                at <= sorted.len(),
                sorted@ == before,
                insert_ranked(before, item) =~= insert_ranked(before.take(at as int), item)
                    + before.skip(at as int),
            decreases at,
        {
            proof {
                let shorter = before.take(at as int);
                assert(shorter.last() == before[at - 1]);
                assert(shorter.drop_last() =~= before.take(at - 1));
                assert(before.skip(at - 1) =~= seq![before[at - 1]] + before.skip(at as int));
            }
            at = at - 1;
        }
        proof {
            let shorter = before.take(at as int);
            assert(at > 0 ==> shorter.last() == before[at - 1]);
            assert(insert_ranked(shorter, item) =~= shorter.push(item));
            assert(before.insert(at as int, item) =~= shorter.push(item) + before.skip(at as int));
            assert(all.take(taken + 1).drop_last() =~= all.take(taken));
            assert(all.take(taken + 1).last() == all[taken]);
        }
        sorted.insert(at, item);
        proof {
            assert(items@ =~= all.skip(taken + 1));
            taken = taken + 1;
        }
    }
    assert(all.take(taken) =~= all);
    *items = sorted;
}

/// Byte strings are compared where they first differ, by the byte there; one that ends there comes
/// first.
pub proof fn lemma_first_difference_decides(left: Seq<u8>, right: Seq<u8>, at: int)
    requires
        0 <= at <= left.len(),
        at <= right.len(),
        forall|i: int| 0 <= i < at ==> #[trigger] left[i] == right[i],
    ensures
        at < left.len() && at < right.len() && left[at] < right[at] ==> bytes_less(left, right)
            && !bytes_less(right, left),
        at == left.len() && at < right.len() ==> bytes_less(left, right) && !bytes_less(
            right,
            left,
        ),
        at == left.len() && at == right.len() ==> !bytes_less(left, right),
    decreases at,
{
    if at > 0 {
        let (a, b) = (left.drop_first(), right.drop_first());
        assert(left[0] == right[0]);
        assert forall|i: int| 0 <= i < at - 1 implies #[trigger] a[i] == b[i] by {
            assert(left[i + 1] == right[i + 1]);
        }
        lemma_first_difference_decides(a, b, at - 1);
    }
}

} // verus!

//! Aggregates do not depend on the order in which spans were measured.

use vstd::prelude::*;
use super::aggregate::{
    aggregated, contributions, fresh_row, group_of, grown_row, has_key, in_key_order, key_less,
    lemma_aggregated, lemma_key_less_irreflexive, lemma_key_less_transitive,
    overall_contribution, own_contribution, summary, Contribution, KeyView, RowView,
};
use super::spans::SpanView;

verus! {

proof fn lemma_place_of<A>(left: Seq<A>, right: Seq<A>) -> (at: int)
    requires
        left.len() > 0,
        left.to_multiset() == right.to_multiset(),
    ensures
        0 <= at < right.len(),
        right[at] == left.last(),
        left.drop_last().to_multiset() == right.remove(at).to_multiset(),
        left.len() == right.len(),
{
    broadcast use vstd::seq_lib::group_to_multiset_ensures;

    let last = left.last();
    assert(left.contains(last));
    assert(left.to_multiset().count(last) > 0);
    assert(right.contains(last));
    let at = right.index_of(last);
    assert(left =~= left.drop_last().push(last));
    assert(left.drop_last().to_multiset() =~= left.to_multiset().remove(last));
    assert(left.to_multiset().len() == left.len());
    assert(right.to_multiset().len() == right.len());
    at
}

/// Whether all contributions go to the same aggregate.
pub open spec fn same_key(items: Seq<Contribution>) -> bool {
    forall|i: int, j: int|
        #![trigger items[i], items[j]]
        0 <= i < items.len() && 0 <= j < items.len() ==> items[i].key == items[j].key
}

proof fn lemma_summary_without(items: Seq<Contribution>, at: int)
    requires
        0 <= at < items.len(),
        items.len() > 1,
        same_key(items),
    ensures
        summary(items) == grown_row(summary(items.remove(at)), items[at]),
    decreases items.len(),
{
    let last = items.last();
    let shorter = items.drop_last();
    if at == items.len() - 1 {
        assert(items.remove(at) =~= shorter);
    } else if items.len() == 2 {
        assert(items.remove(at) =~= seq![last]);
        assert(summary(shorter) == fresh_row(items[0]));
        assert(items[0].key == items[1].key);
    } else {
        assert forall|i: int, j: int|
            #![trigger shorter[i], shorter[j]]
            0 <= i < shorter.len() && 0 <= j < shorter.len() implies shorter[i].key
            == shorter[j].key by {
            assert(items[i].key == items[j].key);
        }
        lemma_summary_without(shorter, at);
        assert(items.remove(at).drop_last() =~= shorter.remove(at));
        assert(items.remove(at).last() == last);
    }
}

proof fn lemma_summary_of_permutation(left: Seq<Contribution>, right: Seq<Contribution>)
    requires
        left.len() > 0,
        left.to_multiset() == right.to_multiset(),
        same_key(left),
        same_key(right),
    ensures
        summary(left) == summary(right),
    decreases left.len(),
{
    let at = lemma_place_of(left, right);
    if left.len() > 1 {
        let shorter = left.drop_last();
        let rest = right.remove(at);
        assert forall|i: int, j: int|
            #![trigger shorter[i], shorter[j]]
            0 <= i < shorter.len() && 0 <= j < shorter.len() implies shorter[i].key
            == shorter[j].key by {
            assert(left[i].key == left[j].key);
        }
        assert forall|i: int, j: int|
            #![trigger rest[i], rest[j]]
            0 <= i < rest.len() && 0 <= j < rest.len() implies rest[i].key == rest[j].key by {
            let k = if i < at {
                i
            } else {
                i + 1
            };
            let l = if j < at {
                j
            } else {
                j + 1
            };
            assert(rest[i] == right[k] && rest[j] == right[l]);
        }
        lemma_summary_of_permutation(shorter, rest);
        lemma_summary_without(right, at);
    } else {
        assert(left[0] == right[0]);
    }
}

proof fn lemma_group_members(items: Seq<Contribution>, key: KeyView)
    ensures
        same_key(group_of(items, key)),
        forall|i: int|
            0 <= i < group_of(items, key).len() ==> (#[trigger] group_of(items, key)[i]).key == key,
        forall|item: Contribution| #[trigger]
            group_of(items, key).to_multiset().count(item) == if item.key == key {
                items.to_multiset().count(item)
            } else {
                0
            },
    decreases items.len(),
{
    broadcast use vstd::seq_lib::group_to_multiset_ensures;

    if items.len() == 0 {
        assert(items.to_multiset() =~= vstd::multiset::Multiset::empty());
        assert(group_of(items, key).to_multiset() =~= vstd::multiset::Multiset::empty());
    } else {
        lemma_group_members(items.drop_last(), key);
        assert(items =~= items.drop_last().push(items.last()));
    }
}

proof fn lemma_groups_of_permutation(
    left: Seq<Contribution>,
    right: Seq<Contribution>,
    key: KeyView,
)
    requires
        left.to_multiset() == right.to_multiset(),
    ensures
        group_of(left, key).to_multiset() == group_of(right, key).to_multiset(),
{
    lemma_group_members(left, key);
    lemma_group_members(right, key);
    assert(group_of(left, key).to_multiset() =~= group_of(right, key).to_multiset());
}

proof fn lemma_rows_with_same_keys(left: Seq<RowView>, right: Seq<RowView>)
    requires
        in_key_order(left),
        in_key_order(right),
        forall|key: KeyView| #[trigger] has_key(left, key) == has_key(right, key),
        forall|i: int, j: int|
            #![trigger left[i], right[j]]
            0 <= i < left.len() && 0 <= j < right.len() && left[i].key == right[j].key ==> left[i]
                == right[j],
    ensures
        left == right,
    decreases left.len(),
{
    if left.len() == 0 {
        if right.len() > 0 {
            assert(has_key(right, right[0].key));
            assert(has_key(left, right[0].key));
        }
        assert(left =~= right);
    } else {
        assert(has_key(left, left.last().key));
        assert(has_key(right, left.last().key));
        let a = choose|i: int| 0 <= i < right.len() && (#[trigger] right[i]).key == left.last().key;
        assert(has_key(right, right.last().key));
        assert(has_key(left, right.last().key));
        let b = choose|i: int| 0 <= i < left.len() && (#[trigger] left[i]).key == right.last().key;
        let (x, y) = (left.last().key, right.last().key);
        if x != y {
            assert(key_less(right[a].key, right[right.len() - 1].key));
            assert(key_less(left[b].key, left[left.len() - 1].key));
            lemma_key_less_transitive(x, y, x);
            lemma_key_less_irreflexive(x);
        }
        assert(left[left.len() - 1] == right[right.len() - 1]);
        let (p, q) = (left.drop_last(), right.drop_last());
        assert forall|key: KeyView| #[trigger] has_key(p, key) == has_key(q, key) by {
            if has_key(p, key) {
                let i = choose|i: int| 0 <= i < p.len() && (#[trigger] p[i]).key == key;
                assert(left[i].key == key);
                assert(key_less(left[i].key, left[left.len() - 1].key));
                lemma_key_less_irreflexive(key);
                assert(has_key(left, key));
                assert(has_key(right, key));
                let j = choose|j: int| 0 <= j < right.len() && (#[trigger] right[j]).key == key;
                assert(j < q.len());
                assert(q[j].key == key);
            }
            if has_key(q, key) {
                let j = choose|j: int| 0 <= j < q.len() && (#[trigger] q[j]).key == key;
                assert(right[j].key == key);
                assert(key_less(right[j].key, right[right.len() - 1].key));
                lemma_key_less_irreflexive(key);
                assert(has_key(right, key));
                assert(has_key(left, key));
                let i = choose|i: int| 0 <= i < left.len() && (#[trigger] left[i]).key == key;
                assert(i < p.len());
                assert(p[i].key == key);
            }
        }
        assert forall|i: int, j: int|
            #![trigger p[i], p[j]]
            0 <= i < j < p.len() implies key_less(p[i].key, p[j].key) by {
            assert(key_less(left[i].key, left[j].key));
        }
        assert forall|i: int, j: int|
            #![trigger q[i], q[j]]
            0 <= i < j < q.len() implies key_less(q[i].key, q[j].key) by {
            assert(key_less(right[i].key, right[j].key));
        }
        assert forall|i: int, j: int|
            #![trigger p[i], q[j]]
            0 <= i < p.len() && 0 <= j < q.len() && p[i].key == q[j].key implies p[i] == q[j] by {
            assert(left[i] == p[i] && right[j] == q[j]);
        }
        lemma_rows_with_same_keys(p, q);
        assert(left =~= p.push(left.last()));
        assert(right =~= q.push(right.last()));
    }
}

proof fn lemma_keys_come_from_items(items: Seq<Contribution>, other: Seq<Contribution>, key: KeyView)
    requires
        items.to_multiset() == other.to_multiset(),
        has_key(aggregated(items), key),
    ensures
        has_key(aggregated(other), key),
{
    broadcast use vstd::seq_lib::group_to_multiset_ensures;

    lemma_aggregated(items);
    lemma_aggregated(other);
    let rows = aggregated(items);
    let i = choose|i: int| 0 <= i < rows.len() && (#[trigger] rows[i]).key == key;
    let group = group_of(items, rows[i].key);
    assert(group.len() > 0);
    lemma_groups_of_permutation(items, other, key);
    lemma_group_members(other, key);
    let peers = group_of(other, key);
    assert(group.to_multiset().len() == group.len());
    assert(peers.to_multiset().len() == peers.len());
    let item = peers[0];
    assert(peers.contains(item));
    assert(peers.to_multiset().count(item) > 0);
    assert(other.to_multiset().count(item) > 0);
    assert(other.contains(item));
    let k = other.index_of(item);
    assert(has_key(aggregated(other), other[k].key));
}

proof fn lemma_aggregated_of_permutation(left: Seq<Contribution>, right: Seq<Contribution>)
    requires
        left.to_multiset() == right.to_multiset(),
    ensures
        aggregated(left) == aggregated(right),
{
    lemma_aggregated(left);
    lemma_aggregated(right);
    let (a, b) = (aggregated(left), aggregated(right));
    assert forall|key: KeyView| #[trigger] has_key(a, key) == has_key(b, key) by {
        if has_key(a, key) {
            lemma_keys_come_from_items(left, right, key);
        }
        if has_key(b, key) {
            lemma_keys_come_from_items(right, left, key);
        }
    }
    assert forall|i: int, j: int|
        #![trigger a[i], b[j]]
        0 <= i < a.len() && 0 <= j < b.len() && a[i].key == b[j].key implies a[i] == b[j] by {
        let key = a[i].key;
        lemma_groups_of_permutation(left, right, key);
        lemma_group_members(left, key);
        lemma_group_members(right, key);
        lemma_summary_of_permutation(group_of(left, key), group_of(right, key));
    }
    lemma_rows_with_same_keys(a, b);
}

proof fn lemma_contributions_without(spans: Seq<SpanView>, at: int)
    requires
        0 <= at < spans.len(),
    ensures
        contributions(spans).to_multiset() == contributions(spans.remove(at)).to_multiset().insert(
            own_contribution(spans[at]),
        ).insert(overall_contribution(spans[at])),
    decreases spans.len(),
{
    broadcast use vstd::seq_lib::group_to_multiset_ensures;

    let last = spans.last();
    let shorter = spans.drop_last();
    let all = contributions(spans).to_multiset();
    assert(all =~= contributions(shorter).to_multiset().insert(own_contribution(last)).insert(
        overall_contribution(last),
    ));
    if at == spans.len() - 1 {
        assert(spans.remove(at) =~= shorter);
    } else {
        lemma_contributions_without(shorter, at);
        let rest = spans.remove(at);
        assert(rest.drop_last() =~= shorter.remove(at));
        assert(rest.last() == last);
        assert(contributions(rest).to_multiset() =~= contributions(
            rest.drop_last(),
        ).to_multiset().insert(own_contribution(last)).insert(overall_contribution(last)));
        assert(all =~= contributions(rest).to_multiset().insert(own_contribution(spans[at])).insert(
            overall_contribution(spans[at]),
        ));
    }
}

proof fn lemma_contributions_of_permutation(left: Seq<SpanView>, right: Seq<SpanView>)
    requires
        left.to_multiset() == right.to_multiset(),
    ensures
        contributions(left).to_multiset() == contributions(right).to_multiset(),
    decreases left.len(),
{
    broadcast use vstd::seq_lib::group_to_multiset_ensures;

    if left.len() > 0 {
        let at = lemma_place_of(left, right);
        lemma_contributions_of_permutation(left.drop_last(), right.remove(at));
        lemma_contributions_without(right, at);
        lemma_contributions_without(left, left.len() - 1);
        assert(left.remove(left.len() - 1) =~= left.drop_last());
    } else {
        assert(left.to_multiset().len() == left.len());
        assert(right.to_multiset().len() == right.len());
        assert(left =~= right);
    }
}

/// Spans may be aggregated in any order: the aggregates are the same.
pub proof fn lemma_span_order_is_irrelevant(left: Seq<SpanView>, right: Seq<SpanView>)
    requires
        left.to_multiset() == right.to_multiset(),
    ensures
        aggregated(contributions(left)) == aggregated(contributions(right)),
{
    lemma_contributions_of_permutation(left, right);
    lemma_aggregated_of_permutation(contributions(left), contributions(right));
}

} // verus!

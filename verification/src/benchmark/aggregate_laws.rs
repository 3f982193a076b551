//! What an aggregate says of the spans that it stands for.

use vstd::prelude::*;
use vstd::string::*;
use vstd::utf8::encode_utf8;
use super::aggregate::{
    aggregated, contributions, group_of, has_key, lemma_aggregated, overall_contribution,
    own_contribution, row_views, spans_fit, summary, totals_fit, BenchmarkAggregateRow,
    Contribution, KeyView,
};
use super::spans::SpanView;
use crate::numbers::plain_sum;
use crate::order::bytes_less;

verus! {

/// The spans that an aggregate stands for: those of its label, and of its suite unless it stands
/// for all suites.
pub open spec fn spans_behind(
    suite: Seq<char>,
    span_label: Seq<char>,
    all_suites: bool,
    spans: Seq<SpanView>,
) -> Seq<SpanView> {
    spans.filter(
        |span: SpanView| span.span_label == span_label && (all_suites || span.suite == suite),
    )
}

/// Whether the aggregates are those of these spans, as aggregation returns them.
pub open spec fn are_aggregates_of(
    rows: Seq<BenchmarkAggregateRow>,
    spans: Seq<SpanView>,
) -> bool {
    row_views(rows) == aggregated(contributions(spans))
}

/// Whether `least` is the smallest of some numbers.
pub open spec fn is_smallest(least: int, values: Seq<int>) -> bool {
    &&& values.contains(least)
    &&& forall|i: int| 0 <= i < values.len() ==> least <= #[trigger] values[i]
}

/// Whether `most` is the largest of some numbers.
pub open spec fn is_largest(most: int, values: Seq<int>) -> bool {
    &&& values.contains(most)
    &&& forall|i: int| 0 <= i < values.len() ==> #[trigger] values[i] <= most
}

/// One number of each item.
pub open spec fn column<A>(items: Seq<A>, number: spec_fn(A) -> int) -> Seq<int> {
    items.map_values(number)
}

proof fn lemma_column_push<A>(items: Seq<A>, number: spec_fn(A) -> int)
    requires
        items.len() > 0,
    ensures
        column(items, number).drop_last() == column(items.drop_last(), number),
        column(items, number).last() == number(items.last()),
        column(items, number).len() == items.len(),
{
    assert(column(items, number).drop_last() =~= column(items.drop_last(), number));
}

proof fn lemma_grows(values: Seq<int>, shorter: Seq<int>, last: int, least: int, most: int)
    requires
        values.len() > 1,
        values.drop_last() == shorter,
        values.last() == last,
        is_smallest(least, shorter),
        is_largest(most, shorter),
    ensures
        is_smallest(if last < least { last } else { least }, values),
        is_largest(if last > most { last } else { most }, values),
{
    let low = if last < least { last } else { least };
    let high = if last > most { last } else { most };
    let i = shorter.index_of(least);
    let j = shorter.index_of(most);
    assert(values[i] == least && values[j] == most);
    assert(values[values.len() - 1] == last);
    assert forall|k: int| 0 <= k < values.len() implies low <= #[trigger] values[k]
        && values[k] <= high by {
        if k < values.len() - 1 {
            assert(shorter[k] == values[k]);
        }
    }
    assert(values.contains(low));
    assert(values.contains(high));
}

proof fn lemma_one(values: Seq<int>, only: int)
    requires
        values.len() == 1,
        values[0] == only,
    ensures
        is_smallest(only, values),
        is_largest(only, values),
        plain_sum(values) == only,
{
    assert(values.contains(only));
    assert(values.drop_last().len() == 0);
    assert(plain_sum(values.drop_last()) == 0);
}

spec fn delta_instructions() -> spec_fn(Contribution) -> int {
    |item: Contribution| item.delta.instructions as int
}

spec fn delta_heap() -> spec_fn(Contribution) -> int {
    |item: Contribution| item.delta.heap_bytes as int
}

spec fn delta_memory() -> spec_fn(Contribution) -> int {
    |item: Contribution| item.delta.memory_bytes as int
}

spec fn delta_allocation() -> spec_fn(Contribution) -> int {
    |item: Contribution| item.delta.total_allocation as int
}

spec fn end_instructions() -> spec_fn(Contribution) -> int {
    |item: Contribution| item.end.instructions as int
}

spec fn end_heap() -> spec_fn(Contribution) -> int {
    |item: Contribution| item.end.heap_bytes as int
}

spec fn end_memory() -> spec_fn(Contribution) -> int {
    |item: Contribution| item.end.memory_bytes as int
}

spec fn end_allocation() -> spec_fn(Contribution) -> int {
    |item: Contribution| item.end.total_allocation as int
}

proof fn lemma_summary_sums(items: Seq<Contribution>)
    requires
        items.len() > 0,
    ensures
        summary(items).runs == items.len(),
        summary(items).total.instructions == plain_sum(column(items, delta_instructions())),
        summary(items).total.heap_bytes == plain_sum(column(items, delta_heap())),
        summary(items).total.memory_bytes == plain_sum(column(items, delta_memory())),
        summary(items).total.total_allocation == plain_sum(column(items, delta_allocation())),
    decreases items.len(),
{
    lemma_column_push(items, delta_instructions());
    lemma_column_push(items, delta_heap());
    lemma_column_push(items, delta_memory());
    lemma_column_push(items, delta_allocation());
    if items.len() == 1 {
        lemma_one(column(items, delta_instructions()), items[0].delta.instructions as int);
        lemma_one(column(items, delta_heap()), items[0].delta.heap_bytes as int);
        lemma_one(column(items, delta_memory()), items[0].delta.memory_bytes as int);
        lemma_one(column(items, delta_allocation()), items[0].delta.total_allocation as int);
    } else {
        lemma_summary_sums(items.drop_last());
    }
}

proof fn lemma_summary_extremes(items: Seq<Contribution>)
    requires
        items.len() > 0,
    ensures
        ({
            let row = summary(items);
            &&& is_smallest(row.min.instructions as int, column(items, delta_instructions()))
            &&& is_largest(row.max.instructions as int, column(items, delta_instructions()))
            &&& is_smallest(row.min.heap_bytes as int, column(items, delta_heap()))
            &&& is_largest(row.max.heap_bytes as int, column(items, delta_heap()))
            &&& is_smallest(row.min.memory_bytes as int, column(items, delta_memory()))
            &&& is_largest(row.max.memory_bytes as int, column(items, delta_memory()))
            &&& is_smallest(row.min.total_allocation as int, column(items, delta_allocation()))
            &&& is_largest(row.max.total_allocation as int, column(items, delta_allocation()))
        }),
    decreases items.len(),
{
    let row = summary(items);
    let last = items.last();
    let (a, b, c, d) = (
        column(items, delta_instructions()),
        column(items, delta_heap()),
        column(items, delta_memory()),
        column(items, delta_allocation()),
    );
    lemma_column_push(items, delta_instructions());
    lemma_column_push(items, delta_heap());
    lemma_column_push(items, delta_memory());
    lemma_column_push(items, delta_allocation());
    if items.len() == 1 {
        lemma_one(a, row.min.instructions as int);
        lemma_one(b, row.min.heap_bytes as int);
        lemma_one(c, row.min.memory_bytes as int);
        lemma_one(d, row.min.total_allocation as int);
    } else {
        let shorter = items.drop_last();
        let before = summary(shorter);
        lemma_summary_extremes(shorter);
        lemma_grows(
            a,
            column(shorter, delta_instructions()),
            last.delta.instructions as int,
            before.min.instructions as int,
            before.max.instructions as int,
        );
        lemma_grows(
            b,
            column(shorter, delta_heap()),
            last.delta.heap_bytes as int,
            before.min.heap_bytes as int,
            before.max.heap_bytes as int,
        );
        lemma_grows(
            c,
            column(shorter, delta_memory()),
            last.delta.memory_bytes as int,
            before.min.memory_bytes as int,
            before.max.memory_bytes as int,
        );
        lemma_grows(
            d,
            column(shorter, delta_allocation()),
            last.delta.total_allocation as int,
            before.min.total_allocation as int,
            before.max.total_allocation as int,
        );
    }
}

proof fn lemma_peak_grows(values: Seq<int>, shorter: Seq<int>, last: int, most: int)
    requires
        values.len() > 1,
        values.drop_last() == shorter,
        values.last() == last,
        is_largest(most, shorter),
    ensures
        is_largest(if last > most { last } else { most }, values),
{
    let high = if last > most { last } else { most };
    let j = shorter.index_of(most);
    assert(values[j] == most);
    assert(values[values.len() - 1] == last);
    assert forall|k: int| 0 <= k < values.len() implies #[trigger] values[k] <= high by {
        if k < values.len() - 1 {
            assert(shorter[k] == values[k]);
        }
    }
    assert(values.contains(high));
}

proof fn lemma_summary_peaks(items: Seq<Contribution>)
    requires
        items.len() > 0,
    ensures
        ({
            let peak = summary(items).peak_end;
            &&& is_largest(peak.instructions as int, column(items, end_instructions()))
            &&& is_largest(peak.heap_bytes as int, column(items, end_heap()))
            &&& is_largest(peak.memory_bytes as int, column(items, end_memory()))
            &&& is_largest(peak.total_allocation as int, column(items, end_allocation()))
        }),
    decreases items.len(),
{
    let peak = summary(items).peak_end;
    let last = items.last();
    let (a, b, c, d) = (
        column(items, end_instructions()),
        column(items, end_heap()),
        column(items, end_memory()),
        column(items, end_allocation()),
    );
    lemma_column_push(items, end_instructions());
    lemma_column_push(items, end_heap());
    lemma_column_push(items, end_memory());
    lemma_column_push(items, end_allocation());
    if items.len() == 1 {
        lemma_one(a, peak.instructions as int);
        lemma_one(b, peak.heap_bytes as int);
        lemma_one(c, peak.memory_bytes as int);
        lemma_one(d, peak.total_allocation as int);
    } else {
        let shorter = items.drop_last();
        let before = summary(shorter).peak_end;
        lemma_summary_peaks(shorter);
        lemma_peak_grows(
            a,
            column(shorter, end_instructions()),
            last.end.instructions as int,
            before.instructions as int,
        );
        lemma_peak_grows(
            b,
            column(shorter, end_heap()),
            last.end.heap_bytes as int,
            before.heap_bytes as int,
        );
        lemma_peak_grows(
            c,
            column(shorter, end_memory()),
            last.end.memory_bytes as int,
            before.memory_bytes as int,
        );
        lemma_peak_grows(
            d,
            column(shorter, end_allocation()),
            last.end.total_allocation as int,
            before.total_allocation as int,
        );
    }
}

spec fn contribution_to(all_suites: bool) -> spec_fn(SpanView) -> Contribution {
    |span: SpanView|
        if all_suites {
            overall_contribution(span)
        } else {
            own_contribution(span)
        }
}

proof fn lemma_group_of_spans(spans: Seq<SpanView>, key: KeyView)
    requires
        key.all_suites ==> key.suite == "ALL"@,
    ensures
        group_of(contributions(spans), key) == spans_behind(
            key.suite,
            key.span_label,
            key.all_suites,
            spans,
        ).map_values(contribution_to(key.all_suites)),
    decreases spans.len(),
{
    reveal(Seq::filter);
    let view = contribution_to(key.all_suites);
    let own = spans_behind(key.suite, key.span_label, key.all_suites, spans);
    if spans.len() == 0 {
        assert(own.map_values(view) =~= Seq::<Contribution>::empty());
    } else {
        let shorter = spans.drop_last();
        let span = spans.last();
        let fewer = spans_behind(key.suite, key.span_label, key.all_suites, shorter);
        lemma_group_of_spans(shorter, key);
        let items = contributions(shorter);
        let (first, second) = (own_contribution(span), overall_contribution(span));
        let more = items.push(first);
        let all = more.push(second);
        assert(contributions(spans) == all);
        assert(all.drop_last() =~= more);
        assert(more.drop_last() =~= items);
        assert(group_of(all, key) == if second.key == key {
            group_of(more, key).push(second)
        } else {
            group_of(more, key)
        });
        assert(group_of(more, key) == if first.key == key {
            group_of(items, key).push(first)
        } else {
            group_of(items, key)
        });
        assert(second.key == key <==> key.all_suites && span.span_label == key.span_label);
        assert(first.key == key <==> !key.all_suites && span.suite == key.suite && span.span_label
            == key.span_label);
        if span.span_label == key.span_label && (key.all_suites || span.suite == key.suite) {
            assert(own == fewer.push(span));
            assert(own.map_values(view) =~= fewer.map_values(view).push(view(span)));
        } else {
            assert(own == fewer);
        }
    }
}

proof fn lemma_keys_of_spans(spans: Seq<SpanView>)
    ensures
        contributions(spans).len() == 2 * spans.len(),
        forall|k: int|
            0 <= k < spans.len() ==> contributions(spans)[2 * k] == own_contribution(
                #[trigger] spans[k],
            ) && contributions(spans)[2 * k + 1] == overall_contribution(spans[k]),
    decreases spans.len(),
{
    if spans.len() > 0 {
        let shorter = spans.drop_last();
        lemma_keys_of_spans(shorter);
        assert forall|k: int| 0 <= k < spans.len() implies contributions(spans)[2 * k]
            == own_contribution(#[trigger] spans[k]) && contributions(spans)[2 * k + 1]
            == overall_contribution(spans[k]) by {
            if k < shorter.len() {
                assert(shorter[k] == spans[k]);
            }
        }
    }
}

proof fn lemma_group_is_among(items: Seq<Contribution>, key: KeyView)
    requires
        group_of(items, key).len() > 0,
    ensures
        exists|k: int| 0 <= k < items.len() && (#[trigger] items[k]).key == key,
    decreases items.len(),
{
    if items.last().key == key {
        assert(items[items.len() - 1].key == key);
    } else {
        lemma_group_is_among(items.drop_last(), key);
        let k = choose|k: int|
            0 <= k < items.drop_last().len() && (#[trigger] items.drop_last()[k]).key == key;
        assert(items[k].key == key);
    }
}

proof fn lemma_rows_are_named(spans: Seq<SpanView>, at: int)
    requires
        0 <= at < aggregated(contributions(spans)).len(),
    ensures
        aggregated(contributions(spans))[at].key.all_suites ==> aggregated(
            contributions(spans),
        )[at].key.suite == "ALL"@,
{
    let items = contributions(spans);
    let row = aggregated(items)[at];
    lemma_aggregated(items);
    assert(group_of(items, row.key).len() > 0);
    lemma_group_is_among(items, row.key);
    lemma_keys_of_spans(spans);
    let k = choose|k: int| 0 <= k < items.len() && (#[trigger] items[k]).key == row.key;
    let span = spans[k / 2];
    assert(k == 2 * (k / 2) || k == 2 * (k / 2) + 1);
}

/// An aggregate counts the spans that it stands for, and each of its four totals is the sum of
/// that counter over what these spans took.
pub proof fn lemma_totals_are_sums(
    rows: Seq<BenchmarkAggregateRow>,
    spans: Seq<SpanView>,
    at: int,
)
    requires
        are_aggregates_of(rows, spans),
        0 <= at < rows.len(),
    ensures
        ({
            let row = rows[at];
            let own = spans_behind(row.suite@, row.span_label@, row.all_suites, spans);
            &&& own.len() > 0
            &&& row.runs == own.len()
            &&& row.total.instructions == plain_sum(
                own.map_values(|span: SpanView| span.delta.instructions as int),
            )
            &&& row.total.heap_bytes == plain_sum(
                own.map_values(|span: SpanView| span.delta.heap_bytes as int),
            )
            &&& row.total.memory_bytes == plain_sum(
                own.map_values(|span: SpanView| span.delta.memory_bytes as int),
            )
            &&& row.total.total_allocation == plain_sum(
                own.map_values(|span: SpanView| span.delta.total_allocation as int),
            )
        }),
{
    let row = rows[at];
    let items = contributions(spans);
    assert(row_views(rows)[at] == row@);
    let key = row@.key;
    let own = spans_behind(row.suite@, row.span_label@, row.all_suites, spans);
    lemma_aggregated(items);
    lemma_rows_are_named(spans, at);
    assert(aggregated(items)[at] == row@);
    let group = group_of(items, key);
    lemma_group_of_spans(spans, key);
    lemma_summary_sums(group);
    assert(column(group, delta_instructions()) =~= own.map_values(
        |span: SpanView| span.delta.instructions as int,
    ));
    assert(column(group, delta_heap()) =~= own.map_values(
        |span: SpanView| span.delta.heap_bytes as int,
    ));
    assert(column(group, delta_memory()) =~= own.map_values(
        |span: SpanView| span.delta.memory_bytes as int,
    ));
    assert(column(group, delta_allocation()) =~= own.map_values(
        |span: SpanView| span.delta.total_allocation as int,
    ));
}

/// The least and most of an aggregate are the smallest and largest that one of its spans took,
/// counter by counter, and its peak is the largest at the end of one of them.
pub proof fn lemma_extremes_are_attained(
    rows: Seq<BenchmarkAggregateRow>,
    spans: Seq<SpanView>,
    at: int,
)
    requires
        are_aggregates_of(rows, spans),
        0 <= at < rows.len(),
    ensures
        ({
            let row = rows[at];
            let own = spans_behind(row.suite@, row.span_label@, row.all_suites, spans);
            let instructions = own.map_values(|span: SpanView| span.delta.instructions as int);
            let heap = own.map_values(|span: SpanView| span.delta.heap_bytes as int);
            let memory = own.map_values(|span: SpanView| span.delta.memory_bytes as int);
            let allocation = own.map_values(|span: SpanView| span.delta.total_allocation as int);
            &&& is_smallest(row.min.instructions as int, instructions)
            &&& is_smallest(row.min.heap_bytes as int, heap)
            &&& is_smallest(row.min.memory_bytes as int, memory)
            &&& is_smallest(row.min.total_allocation as int, allocation)
            &&& is_largest(row.max.instructions as int, instructions)
            &&& is_largest(row.max.heap_bytes as int, heap)
            &&& is_largest(row.max.memory_bytes as int, memory)
            &&& is_largest(row.max.total_allocation as int, allocation)
            &&& is_largest(
                row.peak_end.instructions as int,
                own.map_values(|span: SpanView| span.end.instructions as int),
            )
            &&& is_largest(
                row.peak_end.heap_bytes as int,
                own.map_values(|span: SpanView| span.end.heap_bytes as int),
            )
            &&& is_largest(
                row.peak_end.memory_bytes as int,
                own.map_values(|span: SpanView| span.end.memory_bytes as int),
            )
            &&& is_largest(
                row.peak_end.total_allocation as int,
                own.map_values(|span: SpanView| span.end.total_allocation as int),
            )
        }),
{
    let row = rows[at];
    let items = contributions(spans);
    assert(row_views(rows)[at] == row@);
    let key = row@.key;
    let own = spans_behind(row.suite@, row.span_label@, row.all_suites, spans);
    lemma_aggregated(items);
    lemma_rows_are_named(spans, at);
    assert(aggregated(items)[at] == row@);
    let group = group_of(items, key);
    lemma_group_of_spans(spans, key);
    lemma_summary_extremes(group);
    lemma_summary_peaks(group);
    assert(column(group, delta_instructions()) =~= own.map_values(
        |span: SpanView| span.delta.instructions as int,
    ));
    assert(column(group, delta_heap()) =~= own.map_values(
        |span: SpanView| span.delta.heap_bytes as int,
    ));
    assert(column(group, delta_memory()) =~= own.map_values(
        |span: SpanView| span.delta.memory_bytes as int,
    ));
    assert(column(group, delta_allocation()) =~= own.map_values(
        |span: SpanView| span.delta.total_allocation as int,
    ));
    assert(column(group, end_instructions()) =~= own.map_values(
        |span: SpanView| span.end.instructions as int,
    ));
    assert(column(group, end_heap()) =~= own.map_values(
        |span: SpanView| span.end.heap_bytes as int,
    ));
    assert(column(group, end_memory()) =~= own.map_values(
        |span: SpanView| span.end.memory_bytes as int,
    ));
    assert(column(group, end_allocation()) =~= own.map_values(
        |span: SpanView| span.end.total_allocation as int,
    ));
}

/// Every span goes into the aggregate of its suite and label and into that of its label over all
/// suites, which is called `ALL`.
pub proof fn lemma_every_span_is_aggregated(
    rows: Seq<BenchmarkAggregateRow>,
    spans: Seq<SpanView>,
    at: int,
)
    requires
        are_aggregates_of(rows, spans),
        0 <= at < spans.len(),
    ensures
        exists|i: int|
            0 <= i < rows.len() && !(#[trigger] rows[i]).all_suites && rows[i].suite@
                == spans[at].suite && rows[i].span_label@ == spans[at].span_label,
        exists|i: int|
            0 <= i < rows.len() && (#[trigger] rows[i]).all_suites && rows[i].suite@ == "ALL"@
                && rows[i].span_label@ == spans[at].span_label,
{
    let items = contributions(spans);
    let views = row_views(rows);
    lemma_aggregated(items);
    lemma_keys_of_spans(spans);
    let (own, overall) = (own_contribution(spans[at]).key, overall_contribution(spans[at]).key);
    assert(items[2 * at].key == own && items[2 * at + 1].key == overall);
    assert(has_key(views, items[2 * at].key));
    assert(has_key(views, items[2 * at + 1].key));
    let i = choose|i: int| 0 <= i < views.len() && (#[trigger] views[i]).key == own;
    let j = choose|j: int| 0 <= j < views.len() && (#[trigger] views[j]).key == overall;
    assert(views[i] == rows[i]@ && views[j] == rows[j]@);
    assert(!rows[i].all_suites && rows[j].all_suites);
}

/// Aggregates stand by suite, then by label, then with the one over all suites behind; no two
/// stand for the same.
pub proof fn lemma_aggregates_stand_in_order(
    rows: Seq<BenchmarkAggregateRow>,
    spans: Seq<SpanView>,
    first: int,
    second: int,
)
    requires
        are_aggregates_of(rows, spans),
        0 <= first < second < rows.len(),
    ensures
        ({
            let (a, b) = (rows[first], rows[second]);
            ||| bytes_less(encode_utf8(a.suite@), encode_utf8(b.suite@))
            ||| a.suite@ == b.suite@ && bytes_less(
                encode_utf8(a.span_label@),
                encode_utf8(b.span_label@),
            )
            ||| a.suite@ == b.suite@ && a.span_label@ == b.span_label@ && !a.all_suites
                && b.all_suites
        }),
{
    let views = row_views(rows);
    lemma_aggregated(contributions(spans));
    assert(views[first] == rows[first]@ && views[second] == rows[second]@);
}

/// Whether what some spans took can be summed up, counter by counter.
pub open spec fn sums_fit(spans: Seq<SpanView>) -> bool {
    &&& plain_sum(spans.map_values(|span: SpanView| span.delta.instructions as int)) <= u128::MAX
    &&& plain_sum(spans.map_values(|span: SpanView| span.delta.heap_bytes as int)) <= u128::MAX
    &&& plain_sum(spans.map_values(|span: SpanView| span.delta.memory_bytes as int)) <= u128::MAX
    &&& plain_sum(spans.map_values(|span: SpanView| span.delta.total_allocation as int))
        <= u128::MAX
}

proof fn lemma_row_fits(spans: Seq<SpanView>, at: int)
    requires
        0 <= at < aggregated(contributions(spans)).len(),
    ensures
        ({
            let row = aggregated(contributions(spans))[at];
            totals_fit(row.total) <==> sums_fit(
                spans_behind(row.key.suite, row.key.span_label, row.key.all_suites, spans),
            )
        }),
{
    let items = contributions(spans);
    let row = aggregated(items)[at];
    let key = row.key;
    let own = spans_behind(key.suite, key.span_label, key.all_suites, spans);
    lemma_aggregated(items);
    lemma_rows_are_named(spans, at);
    let group = group_of(items, key);
    lemma_group_of_spans(spans, key);
    lemma_summary_sums(group);
    assert(column(group, delta_instructions()) =~= own.map_values(
        |span: SpanView| span.delta.instructions as int,
    ));
    assert(column(group, delta_heap()) =~= own.map_values(
        |span: SpanView| span.delta.heap_bytes as int,
    ));
    assert(column(group, delta_memory()) =~= own.map_values(
        |span: SpanView| span.delta.memory_bytes as int,
    ));
    assert(column(group, delta_allocation()) =~= own.map_values(
        |span: SpanView| span.delta.total_allocation as int,
    ));
}

/// Spans can be aggregated exactly when what those of one suite and label took, and what those of
/// one label took over all suites, can be summed up.
pub proof fn lemma_refused_means_too_large(spans: Seq<SpanView>)
    ensures
        spans_fit(spans) <==> forall|at: int, all_suites: bool|
            0 <= at < spans.len() ==> sums_fit(
                #[trigger] spans_behind(
                    spans[at].suite,
                    spans[at].span_label,
                    all_suites,
                    spans,
                ),
            ),
{
    let items = contributions(spans);
    let rows = aggregated(items);
    lemma_aggregated(items);
    lemma_keys_of_spans(spans);
    if spans_fit(spans) {
        assert forall|at: int, all_suites: bool| 0 <= at < spans.len() implies sums_fit(
            #[trigger] spans_behind(spans[at].suite, spans[at].span_label, all_suites, spans),
        ) by {
            let k = if all_suites {
                2 * at + 1
            } else {
                2 * at
            };
            assert(items[2 * at] == own_contribution(spans[at]));
            assert(items[2 * at + 1] == overall_contribution(spans[at]));
            assert(has_key(rows, items[k].key));
            let i = choose|i: int| 0 <= i < rows.len() && (#[trigger] rows[i]).key == items[k].key;
            lemma_row_fits(spans, i);
            assert(totals_fit(rows[i].total));
            assert(spans_behind("ALL"@, spans[at].span_label, true, spans) =~= spans_behind(
                spans[at].suite,
                spans[at].span_label,
                true,
                spans,
            )) by {
                lemma_suite_is_open(spans, "ALL"@, spans[at].suite, spans[at].span_label);
            }
        }
    }
    if forall|at: int, all_suites: bool|
        0 <= at < spans.len() ==> sums_fit(
            #[trigger] spans_behind(spans[at].suite, spans[at].span_label, all_suites, spans),
        ) {
        assert forall|i: int| 0 <= i < rows.len() implies totals_fit(
            (#[trigger] rows[i]).total,
        ) by {
            let key = rows[i].key;
            assert(group_of(items, key).len() > 0);
            lemma_group_is_among(items, key);
            let k = choose|k: int| 0 <= k < items.len() && (#[trigger] items[k]).key == key;
            let at = k / 2;
            assert(spans[at] == spans[at]);
            assert(k == 2 * at || k == 2 * at + 1);
            lemma_row_fits(spans, i);
            lemma_suite_is_open(spans, key.suite, spans[at].suite, key.span_label);
            assert(sums_fit(
                spans_behind(spans[at].suite, spans[at].span_label, key.all_suites, spans),
            ));
        }
    }
}

proof fn lemma_suite_is_open(
    spans: Seq<SpanView>,
    suite: Seq<char>,
    other: Seq<char>,
    span_label: Seq<char>,
)
    ensures
        spans_behind(suite, span_label, true, spans) == spans_behind(
            other,
            span_label,
            true,
            spans,
        ),
    decreases spans.len(),
{
    reveal(Seq::filter);
    if spans.len() > 0 {
        lemma_suite_is_open(spans.drop_last(), suite, other, span_label);
    }
}

} // verus!

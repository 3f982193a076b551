//! Aggregation of spans and comparison of aggregates.

use vstd::prelude::*;
use vstd::string::*;
use vstd::utf8::encode_utf8;
use super::markers::BenchmarkCounters;
use super::spans::{span_views, BenchmarkSpan, SpanView};
use crate::order::{
    bytes_before, bytes_less, lemma_bytes_less_irreflexive, lemma_bytes_less_total,
    lemma_bytes_less_transitive,
};
use crate::text::text_equal;

verus! {

/// Suite under which the spans of all suites are aggregated together.
pub const ALL_SUITES: &'static str = "ALL";

/// What identifies an aggregate.
pub struct KeyView {
    /// Suite of the spans.
    pub suite: Seq<char>,
    /// Label of the spans.
    pub span_label: Seq<char>,
    /// Whether the spans of all suites are meant, whatever their suite is called.
    pub all_suites: bool,
}

/// Whether an aggregate stands before another: by suite, by label, and suites before all of them.
pub open spec fn key_less(left: KeyView, right: KeyView) -> bool {
    ||| bytes_less(encode_utf8(left.suite), encode_utf8(right.suite))
    ||| left.suite == right.suite && bytes_less(
        encode_utf8(left.span_label),
        encode_utf8(right.span_label),
    )
    ||| left.suite == right.suite && left.span_label == right.span_label && !left.all_suites
        && right.all_suites
}

/// No aggregate stands before itself.
pub proof fn lemma_key_less_irreflexive(key: KeyView)
    ensures
        !key_less(key, key),
{
    lemma_bytes_less_irreflexive(encode_utf8(key.suite));
    lemma_bytes_less_irreflexive(encode_utf8(key.span_label));
}

/// The order of aggregates is transitive.
pub proof fn lemma_key_less_transitive(first: KeyView, second: KeyView, third: KeyView)
    requires
        key_less(first, second),
        key_less(second, third),
    ensures
        key_less(first, third),
{
    let (a, b, c) = (
        encode_utf8(first.suite),
        encode_utf8(second.suite),
        encode_utf8(third.suite),
    );
    let (x, y, z) = (
        encode_utf8(first.span_label),
        encode_utf8(second.span_label),
        encode_utf8(third.span_label),
    );
    if bytes_less(a, b) && bytes_less(b, c) {
        lemma_bytes_less_transitive(a, b, c);
    }
    if bytes_less(x, y) && bytes_less(y, z) {
        lemma_bytes_less_transitive(x, y, z);
    }
}

/// Of two different aggregates one stands before the other.
pub proof fn lemma_key_less_total(left: KeyView, right: KeyView)
    ensures
        left == right || key_less(left, right) || key_less(right, left),
{
    broadcast use vstd::utf8::encode_utf8_decode_utf8;

    lemma_bytes_less_total(encode_utf8(left.suite), encode_utf8(right.suite));
    lemma_bytes_less_total(encode_utf8(left.span_label), encode_utf8(right.span_label));
    assert(vstd::utf8::decode_utf8(encode_utf8(left.suite)) == left.suite);
    assert(vstd::utf8::decode_utf8(encode_utf8(right.suite)) == right.suite);
    assert(vstd::utf8::decode_utf8(encode_utf8(left.span_label)) == left.span_label);
    assert(vstd::utf8::decode_utf8(encode_utf8(right.span_label)) == right.span_label);
}

/// Whether an aggregate stands before another.
pub fn key_before(
    left_suite: &str,
    left_label: &str,
    left_all: bool,
    right_suite: &str,
    right_label: &str,
    right_all: bool,
) -> (before: bool)
    ensures
        before == key_less(
            KeyView { suite: left_suite@, span_label: left_label@, all_suites: left_all },
            KeyView { suite: right_suite@, span_label: right_label@, all_suites: right_all },
        ),
{
    if bytes_before(left_suite.as_bytes(), right_suite.as_bytes()) {
        return true;
    }
    if !text_equal(left_suite, right_suite) {
        return false;
    }
    if bytes_before(left_label.as_bytes(), right_label.as_bytes()) {
        return true;
    }
    text_equal(left_label, right_label) && !left_all && right_all
}

/// Sums of counters, without a limit.
pub struct Totals {
    /// Executed instructions.
    pub instructions: nat,
    /// Size of the heap.
    pub heap_bytes: nat,
    /// Size of stable memory.
    pub memory_bytes: nat,
    /// Bytes allocated in total.
    pub total_allocation: nat,
}

/// Counters as sums.
pub open spec fn totals_of(counters: BenchmarkCounters) -> Totals {
    Totals {
        instructions: counters.instructions as nat,
        heap_bytes: counters.heap_bytes as nat,
        memory_bytes: counters.memory_bytes as nat,
        total_allocation: counters.total_allocation as nat,
    }
}

/// Sums with counters added.
pub open spec fn totals_plus(totals: Totals, counters: BenchmarkCounters) -> Totals {
    Totals {
        instructions: totals.instructions + counters.instructions as nat,
        heap_bytes: totals.heap_bytes + counters.heap_bytes as nat,
        memory_bytes: totals.memory_bytes + counters.memory_bytes as nat,
        total_allocation: totals.total_allocation + counters.total_allocation as nat,
    }
}

/// Whether sums can be written down.
pub open spec fn totals_fit(totals: Totals) -> bool {
    &&& totals.instructions <= u128::MAX
    &&& totals.heap_bytes <= u128::MAX
    &&& totals.memory_bytes <= u128::MAX
    &&& totals.total_allocation <= u128::MAX
}

/// The smaller of two numbers.
pub open spec fn smaller(left: u128, right: u128) -> u128 {
    if right < left {
        right
    } else {
        left
    }
}

/// The larger of two numbers.
pub open spec fn larger(left: u128, right: u128) -> u128 {
    if right > left {
        right
    } else {
        left
    }
}

/// The smaller counters of two, one by one.
pub open spec fn lower(left: BenchmarkCounters, right: BenchmarkCounters) -> BenchmarkCounters {
    BenchmarkCounters {
        instructions: smaller(left.instructions, right.instructions),
        heap_bytes: smaller(left.heap_bytes, right.heap_bytes),
        memory_bytes: smaller(left.memory_bytes, right.memory_bytes),
        total_allocation: smaller(left.total_allocation, right.total_allocation),
    }
}

/// The larger counters of two, one by one.
pub open spec fn upper(left: BenchmarkCounters, right: BenchmarkCounters) -> BenchmarkCounters {
    BenchmarkCounters {
        instructions: larger(left.instructions, right.instructions),
        heap_bytes: larger(left.heap_bytes, right.heap_bytes),
        memory_bytes: larger(left.memory_bytes, right.memory_bytes),
        total_allocation: larger(left.total_allocation, right.total_allocation),
    }
}

fn min(left: u128, right: u128) -> (least: u128)
    ensures
        least == smaller(left, right),
{
    if right < left {
        right
    } else {
        left
    }
}

fn max(left: u128, right: u128) -> (greatest: u128)
    ensures
        greatest == larger(left, right),
{
    if right > left {
        right
    } else {
        left
    }
}

impl BenchmarkCounters {
    /// The sums with other counters, unless one cannot be written down.
    pub fn checked_add(self, other: Self) -> (sum: Option<Self>)
        ensures
            match sum {
                Some(found) => totals_of(found) == totals_plus(totals_of(self), other),
                None => !totals_fit(totals_plus(totals_of(self), other)),
            },
    {
        let instructions = self.instructions.checked_add(other.instructions)?;
        let heap_bytes = self.heap_bytes.checked_add(other.heap_bytes)?;
        let memory_bytes = self.memory_bytes.checked_add(other.memory_bytes)?;
        let total_allocation = self.total_allocation.checked_add(other.total_allocation)?;
        Some(BenchmarkCounters { instructions, heap_bytes, memory_bytes, total_allocation })
    }

    /// The smaller counters of two, one by one.
    pub fn least(self, other: Self) -> (least: Self)
        ensures
            least == lower(self, other),
    {
        BenchmarkCounters {
            instructions: min(self.instructions, other.instructions),
            heap_bytes: min(self.heap_bytes, other.heap_bytes),
            memory_bytes: min(self.memory_bytes, other.memory_bytes),
            total_allocation: min(self.total_allocation, other.total_allocation),
        }
    }

    /// The larger counters of two, one by one.
    pub fn greatest(self, other: Self) -> (greatest: Self)
        ensures
            greatest == upper(self, other),
    {
        BenchmarkCounters {
            instructions: max(self.instructions, other.instructions),
            heap_bytes: max(self.heap_bytes, other.heap_bytes),
            memory_bytes: max(self.memory_bytes, other.memory_bytes),
            total_allocation: max(self.total_allocation, other.total_allocation),
        }
    }
}

/// What one span adds to one aggregate.
pub struct Contribution {
    /// The aggregate.
    pub key: KeyView,
    /// What the span took.
    pub delta: BenchmarkCounters,
    /// Counters at its end.
    pub end: BenchmarkCounters,
}

/// What a span adds to the aggregate of its suite.
pub open spec fn own_contribution(span: SpanView) -> Contribution {
    Contribution {
        key: KeyView { suite: span.suite, span_label: span.span_label, all_suites: false },
        delta: span.delta,
        end: span.end,
    }
}

/// What a span adds to the aggregate of all suites.
pub open spec fn overall_contribution(span: SpanView) -> Contribution {
    Contribution {
        key: KeyView { suite: ALL_SUITES@, span_label: span.span_label, all_suites: true },
        delta: span.delta,
        end: span.end,
    }
}

/// What spans add to aggregates, in order.
pub open spec fn contributions(spans: Seq<SpanView>) -> Seq<Contribution>
    decreases spans.len(),
{
    if spans.len() == 0 {
        seq![]
    } else {
        contributions(spans.drop_last()).push(own_contribution(spans.last())).push(
            overall_contribution(spans.last()),
        )
    }
}

/// One aggregate.
#[derive(Clone, Debug)]
pub struct BenchmarkAggregateRow {
    /// Suite of the spans.
    pub suite: String,
    /// Label of the spans.
    pub span_label: String,
    /// Whether the spans of all suites are meant, whatever their suite is called.
    pub all_suites: bool,
    /// Number of spans.
    pub runs: u64,
    /// Sum of what the spans took.
    pub total: BenchmarkCounters,
    /// Least that a span took, counter by counter.
    pub min: BenchmarkCounters,
    /// Most that a span took, counter by counter.
    pub max: BenchmarkCounters,
    /// Highest counters at the end of a span, counter by counter.
    pub peak_end: BenchmarkCounters,
}

/// What an aggregate says.
pub struct RowView {
    /// The aggregate.
    pub key: KeyView,
    /// Number of spans.
    pub runs: nat,
    /// Sum of what the spans took.
    pub total: Totals,
    /// Least that a span took, counter by counter.
    pub min: BenchmarkCounters,
    /// Most that a span took, counter by counter.
    pub max: BenchmarkCounters,
    /// Highest counters at the end of a span, counter by counter.
    pub peak_end: BenchmarkCounters,
}

impl View for BenchmarkAggregateRow {
    type V = RowView;

    open spec fn view(&self) -> RowView {
        RowView {
            key: KeyView {
                suite: self.suite@,
                span_label: self.span_label@,
                all_suites: self.all_suites,
            },
            runs: self.runs as nat,
            total: totals_of(self.total),
            min: self.min,
            max: self.max,
            peak_end: self.peak_end,
        }
    }
}

impl BenchmarkAggregateRow {
    /// Whether the row aggregates the spans of all suites.
    ///
    /// A suite that happens to be called like the aggregate of all suites
    /// remains distinct from it.
    pub fn is_all_suites(&self) -> (all: bool)
        ensures
            all == self@.key.all_suites,
    {
        self.all_suites
    }
}

/// Views of a list of aggregates.
pub open spec fn row_views(rows: Seq<BenchmarkAggregateRow>) -> Seq<RowView> {
    rows.map_values(|row: BenchmarkAggregateRow| row@)
}

/// An aggregate of one span.
pub open spec fn fresh_row(item: Contribution) -> RowView {
    RowView {
        key: item.key,
        runs: 1,
        total: totals_of(item.delta),
        min: item.delta,
        max: item.delta,
        peak_end: item.end,
    }
}

/// An aggregate with one more span.
pub open spec fn grown_row(row: RowView, item: Contribution) -> RowView {
    RowView {
        key: row.key,
        runs: row.runs + 1,
        total: totals_plus(row.total, item.delta),
        min: lower(row.min, item.delta),
        max: upper(row.max, item.delta),
        peak_end: upper(row.peak_end, item.end),
    }
}

/// Position of the first aggregate from `from` on that does not stand before `key`.
pub open spec fn place_of(rows: Seq<RowView>, key: KeyView, from: int) -> int
    decreases rows.len() - from,
{
    if from < 0 || from >= rows.len() || !key_less(rows[from].key, key) {
        from
    } else {
        place_of(rows, key, from + 1)
    }
}

/// Aggregates with one more contribution.
pub open spec fn with_contribution(rows: Seq<RowView>, item: Contribution) -> Seq<RowView> {
    let at = place_of(rows, item.key, 0);
    if at < rows.len() && rows[at].key == item.key {
        rows.update(at, grown_row(rows[at], item))
    } else {
        rows.insert(at, fresh_row(item))
    }
}

/// Aggregates of a list of contributions.
pub open spec fn aggregated(items: Seq<Contribution>) -> Seq<RowView>
    decreases items.len(),
{
    if items.len() == 0 {
        seq![]
    } else {
        with_contribution(aggregated(items.drop_last()), items.last())
    }
}

/// The contributions to one aggregate, in order.
pub open spec fn group_of(items: Seq<Contribution>, key: KeyView) -> Seq<Contribution>
    decreases items.len(),
{
    if items.len() == 0 {
        seq![]
    } else if items.last().key == key {
        group_of(items.drop_last(), key).push(items.last())
    } else {
        group_of(items.drop_last(), key)
    }
}

/// The aggregate of some contributions, at least one.
pub open spec fn summary(items: Seq<Contribution>) -> RowView
    decreases items.len(),
{
    if items.len() <= 1 {
        fresh_row(items[0])
    } else {
        grown_row(summary(items.drop_last()), items.last())
    }
}

/// Whether aggregates stand in order, each once.
pub open spec fn in_key_order(rows: Seq<RowView>) -> bool {
    forall|i: int, j: int|
        #![trigger rows[i], rows[j]]
        0 <= i < j < rows.len() ==> key_less(rows[i].key, rows[j].key)
}

/// Whether an aggregate is among others.
pub open spec fn has_key(rows: Seq<RowView>, key: KeyView) -> bool {
    exists|i: int| 0 <= i < rows.len() && (#[trigger] rows[i]).key == key
}

/// Whether every sum of some aggregates can be written down.
pub open spec fn rows_fit(rows: Seq<RowView>) -> bool {
    forall|i: int| 0 <= i < rows.len() ==> totals_fit((#[trigger] rows[i]).total)
}

proof fn lemma_place(rows: Seq<RowView>, key: KeyView, from: int)
    requires
        0 <= from <= rows.len(),
    ensures
        from <= place_of(rows, key, from) <= rows.len(),
        forall|i: int|
            from <= i < place_of(rows, key, from) ==> key_less((#[trigger] rows[i]).key, key),
        place_of(rows, key, from) < rows.len() ==> !key_less(
            rows[place_of(rows, key, from)].key,
            key,
        ),
    decreases rows.len() - from,
{
    if from < rows.len() && key_less(rows[from].key, key) {
        lemma_place(rows, key, from + 1);
    }
}

proof fn lemma_with_contribution_order(rows: Seq<RowView>, item: Contribution)
    requires
        in_key_order(rows),
    ensures
        in_key_order(with_contribution(rows, item)),
{
    let at = place_of(rows, item.key, 0);
    lemma_place(rows, item.key, 0);
    let next = with_contribution(rows, item);
    if at < rows.len() && rows[at].key == item.key {
        assert forall|i: int, j: int| #![trigger next[i], next[j]] 0 <= i < j < next.len() implies key_less(
            next[i].key,
            next[j].key,
        ) by {
            assert(key_less(rows[i].key, rows[j].key));
        }
    } else {
        assert forall|i: int, j: int| #![trigger next[i], next[j]] 0 <= i < j < next.len() implies key_less(
            next[i].key,
            next[j].key,
        ) by {
            if j < at {
                assert(key_less(rows[i].key, rows[j].key));
            } else if j == at {
                assert(key_less(rows[i].key, item.key));
            } else {
                let behind = rows[j - 1];
                lemma_key_less_total(rows[at].key, item.key);
                if j - 1 > at {
                    assert(key_less(rows[at].key, rows[j - 1].key));
                    lemma_key_less_transitive(item.key, rows[at].key, rows[j - 1].key);
                }
                assert(key_less(item.key, behind.key));
                if i < at {
                    assert(key_less(rows[i].key, item.key));
                    lemma_key_less_transitive(rows[i].key, item.key, behind.key);
                } else if i > at {
                    assert(key_less(rows[i - 1].key, rows[j - 1].key));
                }
            }
        }
    }
}

proof fn lemma_key_is_at_place(rows: Seq<RowView>, key: KeyView, at: int)
    requires
        in_key_order(rows),
        0 <= at < rows.len(),
        rows[at].key == key,
    ensures
        place_of(rows, key, 0) == at,
{
    lemma_place(rows, key, 0);
    let place = place_of(rows, key, 0);
    lemma_key_less_irreflexive(key);
    if place < at {
        assert(key_less(rows[place].key, rows[at].key));
    }
}

proof fn lemma_group_of_absent(items: Seq<Contribution>, key: KeyView)
    requires
        forall|k: int| 0 <= k < items.len() ==> (#[trigger] items[k]).key != key,
    ensures
        group_of(items, key) == Seq::<Contribution>::empty(),
    decreases items.len(),
{
    if items.len() > 0 {
        let shorter = items.drop_last();
        assert forall|k: int| 0 <= k < shorter.len() implies (#[trigger] shorter[k]).key != key by {
            assert(items[k].key != key);
        }
        lemma_group_of_absent(shorter, key);
        assert(items[items.len() - 1].key != key);
    }
}

/// Aggregates stand in order, there is one for each key that occurs, and each sums up exactly the
/// contributions to its key.
pub proof fn lemma_aggregated(items: Seq<Contribution>)
    ensures
        in_key_order(aggregated(items)),
        forall|i: int|
            0 <= i < aggregated(items).len() ==> {
                let row = #[trigger] aggregated(items)[i];
                let group = group_of(items, row.key);
                group.len() > 0 && row == summary(group)
            },
        forall|k: int|
            0 <= k < items.len() ==> has_key(aggregated(items), (#[trigger] items[k]).key),
    decreases items.len(),
{
    if items.len() > 0 {
        let shorter = items.drop_last();
        let item = items.last();
        lemma_aggregated(shorter);
        let rows = aggregated(shorter);
        let next = aggregated(items);
        let at = place_of(rows, item.key, 0);
        lemma_place(rows, item.key, 0);
        lemma_with_contribution_order(rows, item);
        let known = at < rows.len() && rows[at].key == item.key;
        if !known {
            assert forall|k: int| 0 <= k < shorter.len() implies (#[trigger] shorter[k]).key
                != item.key by {
                if shorter[k].key == item.key {
                    assert(has_key(rows, shorter[k].key));
                    let i = choose|i: int|
                        0 <= i < rows.len() && (#[trigger] rows[i]).key == item.key;
                    lemma_key_is_at_place(rows, item.key, i);
                }
            }
            lemma_group_of_absent(shorter, item.key);
        }
        assert forall|i: int| 0 <= i < next.len() implies ({
            let row = #[trigger] next[i];
            let group = group_of(items, row.key);
            group.len() > 0 && row == summary(group)
        }) by {
            let row = next[i];
            if known {
                if i == at {
                    let group = group_of(shorter, rows[at].key);
                    assert(rows[at] == summary(group));
                    assert(group.push(item).drop_last() =~= group);
                    assert(group.push(item).last() == item);
                    assert(group_of(items, row.key) == group.push(item));
                } else {
                    assert(row == rows[i]);
                    lemma_key_less_irreflexive(item.key);
                    if i < at {
                        assert(key_less(rows[i].key, rows[at].key));
                    } else {
                        assert(key_less(rows[at].key, rows[i].key));
                    }
                    assert(group_of(items, row.key) == group_of(shorter, row.key));
                }
            } else if i == at {
                assert(group_of(items, row.key) =~= seq![item]);
            } else {
                let old = if i < at {
                    rows[i]
                } else {
                    rows[i - 1]
                };
                assert(row == old);
                if row.key == item.key {
                    let place = if i < at {
                        i
                    } else {
                        i - 1
                    };
                    lemma_key_is_at_place(rows, item.key, place);
                }
                assert(group_of(items, row.key) == group_of(shorter, row.key));
            }
        }
        assert forall|k: int| 0 <= k < items.len() implies has_key(
            next,
            (#[trigger] items[k]).key,
        ) by {
            if k == items.len() - 1 {
                assert(next[at].key == item.key);
            } else {
                assert(shorter[k] == items[k]);
                assert(has_key(rows, shorter[k].key));
                let i = choose|i: int|
                    0 <= i < rows.len() && (#[trigger] rows[i]).key == shorter[k].key;
                if known || i < at {
                    assert(next[i].key == rows[i].key);
                } else {
                    assert(next[i + 1].key == rows[i].key);
                }
            }
        }
    }
}

proof fn lemma_fit_shrinks(rows: Seq<RowView>, item: Contribution)
    requires
        rows_fit(with_contribution(rows, item)),
    ensures
        rows_fit(rows),
{
    let at = place_of(rows, item.key, 0);
    lemma_place(rows, item.key, 0);
    let next = with_contribution(rows, item);
    assert forall|i: int| 0 <= i < rows.len() implies totals_fit((#[trigger] rows[i]).total) by {
        if at < rows.len() && rows[at].key == item.key {
            assert(totals_fit(next[i].total));
        } else if i < at {
            assert(totals_fit(next[i].total));
        } else {
            assert(totals_fit(next[i + 1].total));
        }
    }
}

proof fn lemma_prefix_fits(items: Seq<Contribution>, upto: int)
    requires
        0 <= upto <= items.len(),
        rows_fit(aggregated(items)),
    ensures
        rows_fit(aggregated(items.take(upto))),
    decreases items.len() - upto,
{
    if upto == items.len() {
        assert(items.take(upto) =~= items);
    } else {
        lemma_prefix_fits(items, upto + 1);
        assert(items.take(upto + 1).drop_last() =~= items.take(upto));
        lemma_fit_shrinks(aggregated(items.take(upto)), items.take(upto + 1).last());
    }
}

/// Whether counters do not exceed others, one by one.
pub open spec fn at_most(left: BenchmarkCounters, right: BenchmarkCounters) -> bool {
    &&& left.instructions <= right.instructions
    &&& left.heap_bytes <= right.heap_bytes
    &&& left.memory_bytes <= right.memory_bytes
    &&& left.total_allocation <= right.total_allocation
}

/// An aggregate counts its spans, and its least and most bound what each of them took.
pub proof fn lemma_summary_bounds(items: Seq<Contribution>, at: int)
    requires
        0 <= at < items.len(),
    ensures
        summary(items).runs == items.len(),
        at_most(summary(items).min, items[at].delta),
        at_most(items[at].delta, summary(items).max),
        at_most(items[at].end, summary(items).peak_end),
    decreases items.len(),
{
    if items.len() > 1 {
        if at < items.len() - 1 {
            lemma_summary_bounds(items.drop_last(), at);
            assert(items.drop_last()[at] == items[at]);
        } else {
            lemma_summary_bounds(items.drop_last(), 0);
        }
    }
}

/// Aggregates of all spans.
#[derive(Clone, Debug)]
pub struct BenchmarkAggregateReport {
    /// Aggregates, by suite and label.
    pub rows: Vec<BenchmarkAggregateRow>,
}

impl Default for BenchmarkAggregateReport {
    fn default() -> (report: Self)
        ensures
            report.rows@.len() == 0,
    {
        BenchmarkAggregateReport { rows: Vec::new() }
    }
}

fn add_span_to_aggregate(
    rows: &mut Vec<BenchmarkAggregateRow>,
    suite: &str,
    all_suites: bool,
    span: &BenchmarkSpan,
) -> (fits: bool)
    requires
        forall|i: int|
            0 <= i < old(rows)@.len() && (#[trigger] old(rows)@[i]).all_suites == all_suites
                ==> old(rows)@[i].runs < u64::MAX,
    ensures
        ({
            let item = Contribution {
                key: KeyView { suite: suite@, span_label: span.span_label@, all_suites },
                delta: span.delta,
                end: span.end,
            };
            let next = with_contribution(row_views(old(rows)@), item);
            &&& fits ==> row_views(final(rows)@) == next
            &&& !fits ==> !rows_fit(next)
        }),
{
    let ghost before = row_views(rows@);
    let label = span.span_label.as_str();
    let ghost key = KeyView { suite: suite@, span_label: label@, all_suites };
    let ghost item = Contribution { key, delta: span.delta, end: span.end };
    let mut at: usize = 0;
    while at < rows.len() && key_before(
        rows[at].suite.as_str(),
        rows[at].span_label.as_str(),
        rows[at].all_suites,
        suite,
        label,
        all_suites,
    )
        invariant
            at <= rows@.len(),
            before == row_views(rows@),
            rows@ == old(rows)@,
            label@ == span.span_label@,
            key == (KeyView { suite: suite@, span_label: label@, all_suites }),
            place_of(before, key, 0) == place_of(before, key, at as int),
        decreases rows.len() - at,
    {
        assert(before[at as int] == rows@[at as int]@);
        at = at + 1;
    }
    proof {
        if at < rows@.len() {
            assert(before[at as int] == rows@[at as int]@);
        }
        lemma_place(before, key, 0);
    }
    if at < rows.len() && rows[at].all_suites == all_suites && text_equal(
        rows[at].suite.as_str(),
        suite,
    ) && text_equal(rows[at].span_label.as_str(), label) {
        let row = &rows[at];
        let total = match row.total.checked_add(span.delta) {
            Some(total) => total,
            None => {
                proof {
                    let next = with_contribution(before, item);
                    assert(!totals_fit(next[at as int].total));
                }
                return false;
            },
        };
        let grown = BenchmarkAggregateRow {
            suite: row.suite.clone(),
            span_label: row.span_label.clone(),
            all_suites,
            runs: row.runs + 1,
            total,
            min: row.min.least(span.delta),
            max: row.max.greatest(span.delta),
            peak_end: row.peak_end.greatest(span.end),
        };
        rows.set(at, grown);
        assert(row_views(rows@) =~= before.update(at as int, grown_row(before[at as int], item)));
    } else {
        rows.insert(
            at,
            BenchmarkAggregateRow {
                suite: suite.to_owned(),
                span_label: label.to_owned(),
                all_suites,
                runs: 1,
                total: span.delta,
                min: span.delta,
                max: span.delta,
                peak_end: span.end,
            },
        );
        assert(row_views(rows@) =~= before.insert(at as int, fresh_row(item)));
    }
    true
}

proof fn lemma_own_runs_bounded(spans: Seq<SpanView>, items: Seq<Contribution>, at: int)
    requires
        items == contributions(spans) || (spans.len() > 0 && items == contributions(
            spans.drop_last(),
        ).push(own_contribution(spans.last()))),
        0 <= at < aggregated(items).len(),
    ensures
        aggregated(items)[at].runs <= spans.len(),
        items.len() < contributions(spans).len() && aggregated(items)[at].key.all_suites
            ==> aggregated(items)[at].runs < spans.len(),
    decreases spans.len(), items.len(),
{
    if spans.len() > 0 {
        let own = own_contribution(spans.last());
        let overall = overall_contribution(spans.last());
        let shorter = contributions(spans.drop_last());
        let middle = shorter.push(own);
        lemma_aggregated(shorter);
        lemma_aggregated(middle);
        assert(middle.drop_last() =~= shorter);
        let rows = aggregated(shorter);
        let place = place_of(rows, own.key, 0);
        lemma_place(rows, own.key, 0);
        assert forall|i: int| 0 <= i < aggregated(middle).len() implies (
        #[trigger] aggregated(middle)[i]).runs <= if aggregated(middle)[i].key.all_suites {
            spans.len() - 1
        } else {
            spans.len() as int
        } by {
            let row = aggregated(middle)[i];
            if place < rows.len() && rows[place].key == own.key {
                lemma_own_runs_bounded(spans.drop_last(), shorter, i);
            } else if i < place {
                lemma_own_runs_bounded(spans.drop_last(), shorter, i);
            } else if i > place {
                lemma_own_runs_bounded(spans.drop_last(), shorter, i - 1);
            }
        }
        if items == contributions(spans) {
            assert(items.drop_last() =~= middle);
            assert(items.last() == overall);
            let second = place_of(aggregated(middle), overall.key, 0);
            lemma_place(aggregated(middle), overall.key, 0);
            let known = second < aggregated(middle).len() && aggregated(middle)[second].key
                == overall.key;
            if known {
                assert(aggregated(middle)[at].runs <= spans.len());
            } else if at < second {
                assert(aggregated(middle)[at].runs <= spans.len());
            } else if at > second {
                assert(aggregated(middle)[at - 1].runs <= spans.len());
            }
        }
    }
}

/// Whether every sum over spans can be written down.
pub open spec fn spans_fit(spans: Seq<SpanView>) -> bool {
    rows_fit(aggregated(contributions(spans)))
}

/// Aggregate spans by suite and label, and by label over all suites, unless a sum cannot be
/// written down.
pub fn try_aggregate_benchmark_spans(spans: &Vec<BenchmarkSpan>) -> (report: Option<
    BenchmarkAggregateReport,
>)
    ensures
        match report {
            Some(found) => spans_fit(span_views(spans@)) && row_views(found.rows@) == aggregated(
                contributions(span_views(spans@)),
            ),
            None => !spans_fit(span_views(spans@)),
        },
{
    let ghost all = span_views(spans@);
    let ghost items = contributions(all);
    let mut rows: Vec<BenchmarkAggregateRow> = Vec::new();
    let mut at: usize = 0;
    assert(all.take(0) =~= seq![]);
    assert(row_views(rows@) =~= aggregated(contributions(all.take(0))));
    while at < spans.len()
        invariant
            at <= spans@.len(),
            all == span_views(spans@),
            items == contributions(all),
            row_views(rows@) == aggregated(contributions(all.take(at as int))),
        decreases spans.len() - at,
    {
        let span = &spans[at];
        let ghost shorter = contributions(all.take(at as int));
        let ghost middle = shorter.push(own_contribution(span@));
        let ghost next = contributions(all.take(at + 1));
        proof {
            assert(all.take(at + 1).drop_last() =~= all.take(at as int));
            assert(all.take(at + 1).last() == span@);
            assert(middle.drop_last() =~= shorter);
            assert(next.drop_last() =~= middle);
            lemma_contributions_prefix(all, at as int);
            lemma_contributions_prefix(all, at + 1);
            assert(at < spans.len());
            assert forall|i: int| 0 <= i < rows@.len() && !(
            #[trigger] rows@[i]).all_suites implies rows@[i].runs < u64::MAX by {
                lemma_own_runs_bounded(all.take(at as int), shorter, i);
                assert(row_views(rows@)[i] == rows@[i]@);
            }
        }
        if !add_span_to_aggregate(&mut rows, span.suite.as_str(), false, span) {
            proof {
                if rows_fit(aggregated(items)) {
                    lemma_prefix_fits(items, middle.len() as int);
                    assert(items.take(middle.len() as int) =~= next.take(middle.len() as int));
                    assert(next.take(middle.len() as int) =~= middle);
                }
            }
            return None;
        }
        proof {
            assert(row_views(rows@) == aggregated(middle));
            assert forall|i: int| 0 <= i < rows@.len() && (
            #[trigger] rows@[i]).all_suites implies rows@[i].runs < u64::MAX by {
                lemma_own_runs_bounded(all.take(at + 1), middle, i);
                assert(row_views(rows@)[i] == rows@[i]@);
            }
        }
        if !add_span_to_aggregate(&mut rows, ALL_SUITES, true, span) {
            proof {
                if rows_fit(aggregated(items)) {
                    lemma_prefix_fits(items, next.len() as int);
                    assert(items.take(next.len() as int) =~= next);
                }
            }
            return None;
        }
        at = at + 1;
    }
    assert(all.take(at as int) =~= all);
    proof {
        assert(rows_fit(aggregated(items))) by {
            assert forall|i: int| 0 <= i < aggregated(items).len() implies totals_fit(
                (#[trigger] aggregated(items)[i]).total,
            ) by {
                assert(row_views(rows@)[i] == rows@[i]@);
            }
        }
    }
    Some(BenchmarkAggregateReport { rows })
}

proof fn lemma_contributions_prefix(spans: Seq<SpanView>, upto: int)
    requires
        0 <= upto <= spans.len(),
    ensures
        contributions(spans.take(upto)).len() == 2 * upto,
        contributions(spans).len() == 2 * spans.len(),
        contributions(spans).take(2 * upto) == contributions(spans.take(upto)),
    decreases spans.len(),
{
    if upto == spans.len() {
        assert(spans.take(upto) =~= spans);
        if spans.len() > 0 {
            lemma_contributions_prefix(spans.drop_last(), upto - 1);
        }
        assert(contributions(spans).take(2 * upto) =~= contributions(spans));
    } else {
        lemma_contributions_prefix(spans.drop_last(), upto);
        assert(spans.drop_last().take(upto) =~= spans.take(upto));
        assert(contributions(spans).take(2 * upto) =~= contributions(spans.drop_last()).take(
            2 * upto,
        ));
    }
}

/// Aggregate spans by suite and label, and by label over all suites.
pub fn aggregate_benchmark_spans(spans: &Vec<BenchmarkSpan>) -> (report: BenchmarkAggregateReport)
    requires
        spans_fit(span_views(spans@)),
    ensures
        row_views(report.rows@) == aggregated(contributions(span_views(spans@))),
{
    match try_aggregate_benchmark_spans(spans) {
        Some(report) => report,
        None => BenchmarkAggregateReport::default(),
    }
}

} // verus!

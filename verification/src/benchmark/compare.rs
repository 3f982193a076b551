//! Comparison of the aggregates of two runs.

use vstd::prelude::*;
use vstd::string::*;
use super::aggregate::{
    key_before, key_less, lemma_key_less_total, lemma_key_less_transitive, row_views,
    BenchmarkAggregateRow, KeyView, RowView,
};
use crate::text::text_equal;

verus! {

/// An aggregate that occurs in one of two runs or in both.
#[derive(Clone, Debug)]
pub struct BenchmarkComparisonRow {
    /// Suite of the spans.
    pub suite: String,
    /// Label of the spans.
    pub span_label: String,
    /// Whether the spans of all suites are meant, whatever their suite is called.
    pub all_suites: bool,
    /// Number of spans in the current run.
    pub current_runs: Option<u64>,
    /// Number of spans in the previous run.
    pub previous_runs: Option<u64>,
    /// Position among the aggregates of the current run.
    pub current_row: Option<usize>,
    /// Position among the aggregates of the previous run.
    pub previous_row: Option<usize>,
}

/// What identifies the aggregate of a comparison.
pub open spec fn comparison_key(row: BenchmarkComparisonRow) -> KeyView {
    KeyView { suite: row.suite@, span_label: row.span_label@, all_suites: row.all_suites }
}

/// Comparison of the aggregates of two runs.
#[derive(Clone, Debug)]
pub struct BenchmarkComparisonReport {
    /// Aggregates of either run, by suite and label.
    pub rows: Vec<BenchmarkComparisonRow>,
}

impl Default for BenchmarkComparisonReport {
    fn default() -> (report: Self)
        ensures
            report.rows@.len() == 0,
    {
        BenchmarkComparisonReport { rows: Vec::new() }
    }
}

/// Position of the last of the first `upto` aggregates with this key.
pub open spec fn last_row(rows: Seq<RowView>, key: KeyView, upto: int) -> Option<int>
    decreases upto,
{
    if upto <= 0 {
        None
    } else if rows[upto - 1].key == key {
        Some(upto - 1)
    } else {
        last_row(rows, key, upto - 1)
    }
}

/// Whether a position and a number of spans are those of an aggregate of a run.
pub open spec fn is_row_of(
    place: Option<usize>,
    runs: Option<u64>,
    rows: Seq<RowView>,
    key: KeyView,
) -> bool {
    match last_row(rows, key, rows.len() as int) {
        Some(at) => place == Some(at as usize) && (runs matches Some(count) && count
            == rows[at].runs),
        None => place is None && runs is None,
    }
}

/// Whether comparisons stand in order, each once.
pub open spec fn in_order(rows: Seq<BenchmarkComparisonRow>) -> bool {
    forall|i: int, j: int|
        #![trigger rows[i], rows[j]]
        0 <= i < j < rows.len() ==> key_less(comparison_key(rows[i]), comparison_key(rows[j]))
}

/// Whether an aggregate is among comparisons.
pub open spec fn compares(rows: Seq<BenchmarkComparisonRow>, key: KeyView) -> bool {
    exists|i: int| 0 <= i < rows.len() && comparison_key(#[trigger] rows[i]) == key
}

fn find_last_row(
    rows: &Vec<BenchmarkAggregateRow>,
    suite: &str,
    span_label: &str,
    all_suites: bool,
) -> (found: Option<usize>)
    ensures
        match (
            found,
            last_row(
                row_views(rows@),
                KeyView { suite: suite@, span_label: span_label@, all_suites },
                rows@.len() as int,
            ),
        ) {
            (Some(at), Some(expected)) => at == expected && at < rows@.len(),
            (None, None) => true,
            _ => false,
        },
{
    let ghost all = row_views(rows@);
    let ghost key = KeyView { suite: suite@, span_label: span_label@, all_suites };
    let mut at: usize = rows.len();
    while at > 0
        invariant
            at <= rows@.len(),
            all == row_views(rows@),
            key == (KeyView { suite: suite@, span_label: span_label@, all_suites }),
            last_row(all, key, rows@.len() as int) == last_row(all, key, at as int),
        decreases at,
    {
        let row = &rows[at - 1];
        assert(all[at - 1] == row@);
        if row.all_suites == all_suites && text_equal(row.suite.as_str(), suite) && text_equal(
            row.span_label.as_str(),
            span_label,
        ) {
            return Some(at - 1);
        }
        at = at - 1;
    }
    None
}

fn compared_row(
    row: &BenchmarkAggregateRow,
    current: &Vec<BenchmarkAggregateRow>,
    previous: &Vec<BenchmarkAggregateRow>,
) -> (compared: BenchmarkComparisonRow)
    ensures
        comparison_key(compared) == row@.key,
        is_row_of(
            compared.current_row,
            compared.current_runs,
            row_views(current@),
            row@.key,
        ),
        is_row_of(
            compared.previous_row,
            compared.previous_runs,
            row_views(previous@),
            row@.key,
        ),
{
    let suite = row.suite.as_str();
    let label = row.span_label.as_str();
    let current_row = find_last_row(current, suite, label, row.all_suites);
    let previous_row = find_last_row(previous, suite, label, row.all_suites);
    let current_runs = match current_row {
        Some(at) => {
            assert(row_views(current@)[at as int] == current@[at as int]@);
            Some(current[at].runs)
        },
        None => None,
    };
    let previous_runs = match previous_row {
        Some(at) => {
            assert(row_views(previous@)[at as int] == previous@[at as int]@);
            Some(previous[at].runs)
        },
        None => None,
    };
    BenchmarkComparisonRow {
        suite: row.suite.clone(),
        span_label: row.span_label.clone(),
        all_suites: row.all_suites,
        current_runs,
        previous_runs,
        current_row,
        previous_row,
    }
}

fn insert_compared(
    rows: &mut Vec<BenchmarkComparisonRow>,
    row: &BenchmarkAggregateRow,
    current: &Vec<BenchmarkAggregateRow>,
    previous: &Vec<BenchmarkAggregateRow>,
)
    requires
        in_order(old(rows)@),
        forall|i: int|
            0 <= i < old(rows)@.len() ==> is_compared(
                #[trigger] old(rows)@[i],
                row_views(current@),
                row_views(previous@),
            ),
    ensures
        in_order(final(rows)@),
        forall|i: int|
            0 <= i < final(rows)@.len() ==> is_compared(
                #[trigger] final(rows)@[i],
                row_views(current@),
                row_views(previous@),
            ),
        forall|key: KeyView| #[trigger]
            compares(final(rows)@, key) == (compares(old(rows)@, key) || key == row@.key),
{
    let ghost before = rows@;
    let ghost key = row@.key;
    let mut at: usize = 0;
    while at < rows.len() && key_before(
        rows[at].suite.as_str(),
        rows[at].span_label.as_str(),
        rows[at].all_suites,
        row.suite.as_str(),
        row.span_label.as_str(),
        row.all_suites,
    )
        invariant
            at <= rows@.len(),
            rows@ == before,
            key == row@.key,
            forall|i: int| 0 <= i < at ==> key_less(comparison_key(#[trigger] before[i]), key),
        decreases rows.len() - at,
    {
        at = at + 1;
    }
    if at < rows.len() && rows[at].all_suites == row.all_suites && text_equal(
        rows[at].suite.as_str(),
        row.suite.as_str(),
    ) && text_equal(rows[at].span_label.as_str(), row.span_label.as_str()) {
        assert(comparison_key(before[at as int]) == key);
        return;
    }
    let compared = compared_row(row, current, previous);
    rows.insert(at, compared);
    proof {
        let place = at as int;
        assert(rows@ == before.insert(place, compared));
        assert forall|i: int, j: int|
            #![trigger rows@[i], rows@[j]]
            0 <= i < j < rows@.len() implies key_less(
            comparison_key(rows@[i]),
            comparison_key(rows@[j]),
        ) by {
            if j < place {
                assert(key_less(comparison_key(before[i]), comparison_key(before[j])));
            } else if j == place {
                assert(key_less(comparison_key(before[i]), key));
            } else {
                let behind = comparison_key(before[j - 1]);
                lemma_key_less_total(comparison_key(before[place]), key);
                if j - 1 > place {
                    assert(key_less(comparison_key(before[place]), comparison_key(before[j - 1])));
                    lemma_key_less_transitive(key, comparison_key(before[place]), behind);
                }
                if i < place {
                    assert(key_less(comparison_key(before[i]), key));
                    lemma_key_less_transitive(comparison_key(before[i]), key, behind);
                } else if i > place {
                    assert(key_less(comparison_key(before[i - 1]), comparison_key(before[j - 1])));
                }
            }
        }
        assert forall|i: int| 0 <= i < rows@.len() implies is_compared(
            #[trigger] rows@[i],
            row_views(current@),
            row_views(previous@),
        ) by {
            if i < place {
                assert(is_compared(before[i], row_views(current@), row_views(previous@)));
            } else if i > place {
                assert(is_compared(before[i - 1], row_views(current@), row_views(previous@)));
            }
        }
        assert forall|other: KeyView| #[trigger] compares(rows@, other) == (compares(before, other)
            || other == key) by {
            if compares(before, other) {
                let i = choose|i: int|
                    0 <= i < before.len() && comparison_key(#[trigger] before[i]) == other;
                if i < place {
                    assert(comparison_key(rows@[i]) == other);
                } else {
                    assert(comparison_key(rows@[i + 1]) == other);
                }
            }
            if other == key {
                assert(comparison_key(rows@[place]) == other);
            }
            if compares(rows@, other) && other != key {
                let i = choose|i: int|
                    0 <= i < rows@.len() && comparison_key(#[trigger] rows@[i]) == other;
                if i < place {
                    assert(comparison_key(before[i]) == other);
                } else {
                    assert(comparison_key(before[i - 1]) == other);
                }
            }
        }
    }
}

/// Whether a comparison says where its aggregate stands in both runs.
pub open spec fn is_compared(
    row: BenchmarkComparisonRow,
    current: Seq<RowView>,
    previous: Seq<RowView>,
) -> bool {
    &&& is_row_of(row.current_row, row.current_runs, current, comparison_key(row))
    &&& is_row_of(row.previous_row, row.previous_runs, previous, comparison_key(row))
}

/// Whether an aggregate occurs in a run.
pub open spec fn occurs(rows: Seq<RowView>, key: KeyView, upto: int) -> bool {
    exists|i: int| 0 <= i < upto && (#[trigger] rows[i]).key == key
}

fn compare_all(
    compared: &mut Vec<BenchmarkComparisonRow>,
    rows: &Vec<BenchmarkAggregateRow>,
    current: &Vec<BenchmarkAggregateRow>,
    previous: &Vec<BenchmarkAggregateRow>,
)
    requires
        in_order(old(compared)@),
        forall|i: int|
            0 <= i < old(compared)@.len() ==> is_compared(
                #[trigger] old(compared)@[i],
                row_views(current@),
                row_views(previous@),
            ),
    ensures
        in_order(final(compared)@),
        forall|i: int|
            0 <= i < final(compared)@.len() ==> is_compared(
                #[trigger] final(compared)@[i],
                row_views(current@),
                row_views(previous@),
            ),
        forall|key: KeyView| #[trigger]
            compares(final(compared)@, key) == (compares(old(compared)@, key) || occurs(
                row_views(rows@),
                key,
                rows@.len() as int,
            )),
{
    let ghost all = row_views(rows@);
    let ghost start = compared@;
    let mut at: usize = 0;
    while at < rows.len()
        invariant
            at <= rows@.len(),
            all == row_views(rows@),
            in_order(compared@),
            forall|i: int|
                0 <= i < compared@.len() ==> is_compared(
                    #[trigger] compared@[i],
                    row_views(current@),
                    row_views(previous@),
                ),
            forall|key: KeyView| #[trigger]
                compares(compared@, key) == (compares(start, key) || occurs(all, key, at as int)),
        decreases rows.len() - at,
    {
        let ghost before = compared@;
        let row = &rows[at];
        assert(all[at as int] == row@);
        insert_compared(compared, row, current, previous);
        proof {
            assert forall|key: KeyView| #[trigger] compares(compared@, key) == (compares(start, key)
                || occurs(all, key, at + 1)) by {
                assert(compares(before, key) == (compares(start, key) || occurs(
                    all,
                    key,
                    at as int,
                )));
                if occurs(all, key, at as int) {
                    let i = choose|i: int| 0 <= i < at && (#[trigger] all[i]).key == key;
                    assert(all[i].key == key);
                }
                if occurs(all, key, at + 1) && !occurs(all, key, at as int) {
                    let i = choose|i: int| 0 <= i < at + 1 && (#[trigger] all[i]).key == key;
                    if i < at {
                        assert(occurs(all, key, at as int));
                    }
                }
                if key == all[at as int].key {
                    assert(occurs(all, key, at + 1));
                }
            }
        }
        at = at + 1;
    }
}

/// Compare the aggregates of two runs: every aggregate that occurs in either, once and in order,
/// with where it stands in both.
pub fn compare_benchmark_aggregates(
    current: &Vec<BenchmarkAggregateRow>,
    previous: &Vec<BenchmarkAggregateRow>,
) -> (report: BenchmarkComparisonReport)
    ensures
        in_order(report.rows@),
        forall|i: int|
            0 <= i < report.rows@.len() ==> is_compared(
                #[trigger] report.rows@[i],
                row_views(current@),
                row_views(previous@),
            ),
        forall|key: KeyView| #[trigger]
            compares(report.rows@, key) == (occurs(
                row_views(current@),
                key,
                current@.len() as int,
            ) || occurs(row_views(previous@), key, previous@.len() as int)),
{
    let mut rows: Vec<BenchmarkComparisonRow> = Vec::new();
    compare_all(&mut rows, current, current, previous);
    compare_all(&mut rows, previous, current, previous);
    BenchmarkComparisonReport { rows }
}

} // verus!

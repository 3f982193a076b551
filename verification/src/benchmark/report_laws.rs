//! Laws of reports and comparisons: what a table keeps of its rows, and what is compared.

use vstd::prelude::*;
use super::aggregate::{row_views, KeyView, RowView};
use super::compare::{
    comparison_key, compares, in_order, is_compared, last_row, occurs, BenchmarkComparisonRow,
};
use super::markers::{source_text, EventView, MalformedView};
use super::report::{
    aggregate_cells, cells_text, chosen_cells, compared_line, comparison_at, comparison_cells,
    comparisons_cells, csv_text, doubled, escaped, event_cells, invalid_cells, malformed_cells,
    report_files, rows_text, span_cells, suffix_text, summary_lines, unpaired_cells, with_suffix,
    BenchmarkRunReport, RenderedChanges, RenderedFigures, ReportFigures,
};
use super::spans::{InvalidView, SpanView, UnpairedView};
use crate::text::decimal;

verus! {

proof fn lemma_doubled_append(left: Seq<char>, right: Seq<char>)
    ensures
        doubled(left + right) == doubled(left) + doubled(right),
    decreases right.len(),
{
    if right.len() == 0 {
        assert(left + right =~= left);
        assert(doubled(left) + doubled(right) =~= doubled(left));
    } else {
        lemma_doubled_append(left, right.drop_last());
        assert((left + right).drop_last() =~= left + right.drop_last());
        assert((left + right).last() == right.last());
        assert(doubled(left + right) =~= doubled(left) + doubled(right));
    }
}

/// A CSV cell is its text; one with a comma, a quotation mark or a line break stands between
/// quotation marks, and inside it every quotation mark is written twice and all else once.
pub proof fn lemma_csv_cells(text: Seq<char>, left: Seq<char>, character: char)
    ensures
        (forall|i: int|
            0 <= i < text.len() ==> #[trigger] text[i] != ',' && text[i] != '"' && text[i] != '\n'
                && text[i] != '\r') ==> csv_text(text) == text,
        (exists|i: int|
            0 <= i < text.len() && (#[trigger] text[i] == ',' || text[i] == '"' || text[i] == '\n'
                || text[i] == '\r')) ==> csv_text(text) == seq!['"'] + doubled(text) + seq!['"'],
        doubled(Seq::<char>::empty()) == Seq::<char>::empty(),
        doubled(seq![character]) == if character == '"' {
            seq!['"', '"']
        } else {
            seq![character]
        },
        doubled(left + text) == doubled(left) + doubled(text),
{
    lemma_doubled_append(left, text);
    let one = seq![character];
    assert(one.drop_last() =~= Seq::<char>::empty());
    assert(doubled(one.drop_last()) =~= Seq::<char>::empty());
    assert(doubled(one) =~= if character == '"' {
        seq!['"', '"']
    } else {
        seq![character]
    });
    if exists|i: int|
        0 <= i < text.len() && (#[trigger] text[i] == ',' || text[i] == '"' || text[i] == '\n'
            || text[i] == '\r') {
        let at = choose|i: int|
            0 <= i < text.len() && (#[trigger] text[i] == ',' || text[i] == '"' || text[i] == '\n'
                || text[i] == '\r');
        assert(text.contains(text[at]));
    }
}

/// In a cell of a Markdown table every bar is written behind a backslash and all else as it is.
pub proof fn lemma_markdown_cells(left: Seq<char>, right: Seq<char>, character: char)
    ensures
        escaped(Seq::<char>::empty()) == Seq::<char>::empty(),
        escaped(seq![character]) == if character == '|' {
            seq!['\\', '|']
        } else {
            seq![character]
        },
        escaped(left + right) == escaped(left) + escaped(right),
    decreases right.len(),
{
    let one = seq![character];
    assert(one.drop_last() =~= Seq::<char>::empty());
    assert(escaped(one.drop_last()) =~= Seq::<char>::empty());
    assert(escaped(one) =~= if character == '|' {
        seq!['\\', '|']
    } else {
        seq![character]
    });
    if right.len() == 0 {
        assert(left + right =~= left);
        assert(escaped(left) + escaped(right) =~= escaped(left));
    } else {
        lemma_markdown_cells(left, right.drop_last(), character);
        assert((left + right).drop_last() =~= left + right.drop_last());
        assert((left + right).last() == right.last());
        assert(escaped(left + right) =~= escaped(left) + escaped(right));
    }
}

proof fn lemma_rows_append(above: Seq<Seq<Seq<char>>>, below: Seq<Seq<Seq<char>>>)
    ensures
        rows_text(above + below) == rows_text(above) + rows_text(below),
    decreases below.len(),
{
    if below.len() == 0 {
        assert(above + below =~= above);
        assert(rows_text(above) + rows_text(below) =~= rows_text(above));
    } else {
        lemma_rows_append(above, below.drop_last());
        assert((above + below).drop_last() =~= above + below.drop_last());
        assert((above + below).last() == below.last());
        assert(rows_text(above + below) =~= rows_text(above) + rows_text(below));
    }
}

/// The cells of a row are set apart by commas and its end is a line feed; rows follow one another.
pub proof fn lemma_tables(
    cells: Seq<Seq<char>>,
    cell: Seq<char>,
    above: Seq<Seq<Seq<char>>>,
    below: Seq<Seq<Seq<char>>>,
)
    ensures
        cells_text(seq![cell]) == cell,
        cells.len() > 0 ==> cells_text(cells.push(cell)) == cells_text(cells) + seq![','] + cell,
        rows_text(seq![cells]) == cells_text(cells) + seq!['\n'],
        rows_text(above + below) == rows_text(above) + rows_text(below),
{
    reveal_strlit(",");
    reveal_strlit("\n");
    assert(","@ =~= seq![',']);
    assert("\n"@ =~= seq!['\n']);
    assert(cells.push(cell).drop_last() =~= cells);
    let one = seq![cells];
    assert(one.drop_last() =~= Seq::<Seq<Seq<char>>>::empty());
    assert(rows_text(one.drop_last()) =~= Seq::<char>::empty());
    assert(rows_text(one) =~= cells_text(cells) + seq!['\n']);
    lemma_rows_append(above, below);
}

/// What the columns of the tables of markers and spans hold.
pub proof fn lemma_columns(
    event: EventView,
    malformed: MalformedView,
    span: SpanView,
    unpaired: UnpairedView,
    invalid: InvalidView,
)
    requires
        event.source_line >= 0,
        malformed.source_line >= 0,
        span.start_line >= 0,
        span.end_line >= 0,
        unpaired.event.source_line >= 0,
        invalid.start.source_line >= 0,
        invalid.end.source_line >= 0,
    ensures
        event_cells(event).len() == 11,
        event_cells(event)[0] == decimal(event.source_line as nat),
        event_cells(event)[1] == source_text(event.source),
        event_cells(event)[2] == csv_text(event.prefix),
        event_cells(event)[3] == csv_text(event.suite),
        event_cells(event)[4] == csv_text(event.label),
        event_cells(event)[5] == csv_text(event.span_label),
        event.kind is Start ==> event_cells(event)[6] == "start"@,
        event.kind is End ==> event_cells(event)[6] == "end"@,
        event_cells(event)[7] == decimal(event.counters.instructions as nat),
        event_cells(event)[8] == decimal(event.counters.heap_bytes as nat),
        event_cells(event)[9] == decimal(event.counters.memory_bytes as nat),
        event_cells(event)[10] == decimal(event.counters.total_allocation as nat),
        malformed_cells(malformed).len() == 4,
        malformed_cells(malformed)[0] == decimal(malformed.source_line as nat),
        malformed_cells(malformed)[1] == source_text(malformed.source),
        malformed_cells(malformed)[2] == csv_text(malformed.reason),
        malformed_cells(malformed)[3] == csv_text(malformed.line),
        span_cells(span).len() == 8,
        span_cells(span)[0] == csv_text(span.suite),
        span_cells(span)[1] == csv_text(span.span_label),
        span_cells(span)[2] == decimal(span.start_line as nat),
        span_cells(span)[3] == decimal(span.end_line as nat),
        span_cells(span)[4] == decimal(span.delta.instructions as nat),
        span_cells(span)[5] == decimal(span.delta.heap_bytes as nat),
        span_cells(span)[6] == decimal(span.delta.memory_bytes as nat),
        span_cells(span)[7] == decimal(span.delta.total_allocation as nat),
        unpaired_cells(unpaired).len() == 6,
        unpaired_cells(unpaired)[0] == decimal(unpaired.event.source_line as nat),
        unpaired_cells(unpaired)[1] == source_text(unpaired.event.source),
        unpaired.kind is Start ==> unpaired_cells(unpaired)[2] == "start"@,
        unpaired.kind is End ==> unpaired_cells(unpaired)[2] == "end"@,
        unpaired_cells(unpaired)[3] == csv_text(unpaired.event.suite),
        unpaired_cells(unpaired)[4] == csv_text(unpaired.event.span_label),
        unpaired_cells(unpaired)[5] == csv_text(unpaired.event.label),
        invalid_cells(invalid).len() == 5,
        invalid_cells(invalid)[0] == decimal(invalid.start.source_line as nat),
        invalid_cells(invalid)[1] == decimal(invalid.end.source_line as nat),
        invalid_cells(invalid)[2] == csv_text(invalid.start.suite),
        invalid_cells(invalid)[3] == csv_text(invalid.start.span_label),
        invalid_cells(invalid)[4] == csv_text(invalid.reason),
{
}

/// What the columns of the tables of aggregates and comparisons hold.
pub proof fn lemma_figure_columns(
    row: RowView,
    averages: RenderedFigures,
    comparison: BenchmarkComparisonRow,
    changes: RenderedFigures,
)
    ensures
        aggregate_cells(row, averages).len() == 11,
        aggregate_cells(row, averages)[0] == csv_text(row.key.suite),
        aggregate_cells(row, averages)[1] == csv_text(row.key.span_label),
        aggregate_cells(row, averages)[2] == decimal(row.runs),
        aggregate_cells(row, averages)[3] == decimal(row.total.instructions),
        aggregate_cells(row, averages)[4] == averages.instructions@,
        aggregate_cells(row, averages)[5] == decimal(row.total.heap_bytes),
        aggregate_cells(row, averages)[6] == averages.heap_bytes@,
        aggregate_cells(row, averages)[7] == decimal(row.total.memory_bytes),
        aggregate_cells(row, averages)[8] == averages.memory_bytes@,
        aggregate_cells(row, averages)[9] == decimal(row.total.total_allocation),
        aggregate_cells(row, averages)[10] == averages.total_allocation@,
        comparison_cells(comparison, changes).len() == 8,
        comparison_cells(comparison, changes)[0] == csv_text(comparison.suite@),
        comparison_cells(comparison, changes)[1] == csv_text(comparison.span_label@),
        comparison.current_runs is None ==> comparison_cells(comparison, changes)[2].len() == 0,
        comparison.current_runs matches Some(runs) ==> comparison_cells(comparison, changes)[2]
            == decimal(runs as nat),
        comparison.previous_runs is None ==> comparison_cells(comparison, changes)[3].len() == 0,
        comparison.previous_runs matches Some(runs) ==> comparison_cells(comparison, changes)[3]
            == decimal(runs as nat),
        comparison_cells(comparison, changes)[4] == changes.instructions@,
        comparison_cells(comparison, changes)[5] == changes.heap_bytes@,
        comparison_cells(comparison, changes)[6] == changes.memory_bytes@,
        comparison_cells(comparison, changes)[7] == changes.total_allocation@,
{
    reveal_strlit("");
}

/// A table of aggregates holds, in order, those of single suites or those of all suites, each with
/// its own averages.
pub proof fn lemma_aggregates_are_chosen(
    rows: Seq<RowView>,
    averages: Seq<RenderedFigures>,
    all_suites: bool,
    upto: int,
)
    requires
        0 <= upto <= rows.len(),
    ensures
        chosen_cells(rows, averages, all_suites, upto) == Seq::new(
            upto as nat,
            |i: int| (rows[i], averages[i]),
        ).filter(|pair: (RowView, RenderedFigures)| pair.0.key.all_suites == all_suites).map_values(
            |pair: (RowView, RenderedFigures)| aggregate_cells(pair.0, pair.1),
        ),
    decreases upto,
{
    reveal(Seq::filter);
    let pairs = Seq::new(upto as nat, |i: int| (rows[i], averages[i]));
    let chosen = |pair: (RowView, RenderedFigures)| pair.0.key.all_suites == all_suites;
    let cells = |pair: (RowView, RenderedFigures)| aggregate_cells(pair.0, pair.1);
    if upto > 0 {
        lemma_aggregates_are_chosen(rows, averages, all_suites, upto - 1);
        let shorter = Seq::new((upto - 1) as nat, |i: int| (rows[i], averages[i]));
        assert(pairs.drop_last() =~= shorter);
        assert(pairs.last() == (rows[upto - 1], averages[upto - 1]));
        if chosen(pairs.last()) {
            assert(shorter.filter(chosen).push(pairs.last()).map_values(cells)
                =~= shorter.filter(chosen).map_values(cells).push(cells(pairs.last())));
        }
    } else {
        assert(pairs.filter(chosen).map_values(cells) =~= seq![]);
    }
}

/// The table of a comparison has one row for every compared aggregate, with its own changes.
pub proof fn lemma_comparisons_are_kept(
    rows: Seq<BenchmarkComparisonRow>,
    changes: Seq<RenderedFigures>,
    upto: int,
)
    requires
        0 <= upto,
    ensures
        comparisons_cells(rows, changes, upto).len() == upto,
        forall|i: int|
            0 <= i < upto ==> #[trigger] comparisons_cells(rows, changes, upto)[i]
                == comparison_cells(rows[i], changes[i]),
    decreases upto,
{
    if upto > 0 {
        lemma_comparisons_are_kept(rows, changes, upto - 1);
        let before = comparisons_cells(rows, changes, upto - 1);
        assert forall|i: int| 0 <= i < upto implies #[trigger] comparisons_cells(
            rows,
            changes,
            upto,
        )[i] == comparison_cells(rows[i], changes[i]) by {
            if i < upto - 1 {
                assert(before[i] == comparison_cells(rows[i], changes[i]));
            }
        }
    }
}

/// The comparison that is shown with an aggregate is one of the same suite and label; none is shown
/// only where there is none.
pub proof fn lemma_shown_comparison(
    rows: Seq<BenchmarkComparisonRow>,
    key: KeyView,
    upto: int,
)
    requires
        0 <= upto <= rows.len(),
    ensures
        match comparison_at(rows, key, upto) {
            Some(at) => 0 <= at < upto && rows[at].suite@ == key.suite && rows[at].span_label@
                == key.span_label && rows[at].all_suites == key.all_suites,
            None => forall|i: int|
                #![trigger rows[i]]
                0 <= i < upto ==> rows[i].suite@ != key.suite || rows[i].span_label@
                    != key.span_label || rows[i].all_suites != key.all_suites,
        },
    decreases upto,
{
    if upto > 0 {
        lemma_shown_comparison(rows, key, upto - 1);
    }
}

/// A figure is followed by its change where one is known, by `new` where the previous run lacks it,
/// and by nothing else.
pub proof fn lemma_shown_changes(
    value: Seq<char>,
    comparison: Option<BenchmarkComparisonRow>,
    change: Option<String>,
)
    ensures
        comparison is None ==> with_suffix(value, suffix_text(comparison, change)) == value,
        comparison matches Some(row) && row.previous_runs is None ==> with_suffix(
            value,
            suffix_text(comparison, change),
        ) == value + " ("@ + "new"@ + ")"@,
        comparison matches Some(row) && row.previous_runs is Some && change is Some ==> with_suffix(
            value,
            suffix_text(comparison, change),
        ) == value + " ("@ + change->0@ + ")"@,
        comparison matches Some(row) && row.previous_runs is Some && change is None ==> with_suffix(
            value,
            suffix_text(comparison, change),
        ) == value,
{
}

/// The summary has one line for every aggregate of a single suite, and none for one of all suites.
pub proof fn lemma_summary_shows_suites(
    rows: Seq<RowView>,
    values: Seq<RenderedFigures>,
    comparisons: Seq<BenchmarkComparisonRow>,
    changes: Seq<RenderedChanges>,
    upto: int,
)
    requires
        0 <= upto < rows.len(),
        comparisons.len() == 0,
    ensures
        rows[upto].key.all_suites ==> summary_lines(rows, values, comparisons, changes, upto + 1)
            == summary_lines(rows, values, comparisons, changes, upto),
        !rows[upto].key.all_suites ==> summary_lines(rows, values, comparisons, changes, upto + 1)
            == summary_lines(rows, values, comparisons, changes, upto) + ("| "@ + escaped(
            rows[upto].key.span_label,
        ) + " | "@ + decimal(rows[upto].runs) + " | "@ + values[upto].instructions@ + " | "@
            + values[upto].heap_bytes@ + " | "@ + values[upto].memory_bytes@ + " | "@
            + values[upto].total_allocation@ + " |\n"@),
{
}

/// A line of the summary shows, for one aggregate, its label, its spans and its four figures, each
/// with its own change in the comparison of the same suite and label.
pub proof fn lemma_summary_line_shows_figures(
    row: RowView,
    values: RenderedFigures,
    comparisons: Seq<BenchmarkComparisonRow>,
    changes: Seq<RenderedChanges>,
)
    ensures
        comparison_at(comparisons, row.key, comparisons.len() as int) matches Some(at)
            ==> compared_line(row, values, comparisons, changes) == "| "@ + escaped(
            row.key.span_label,
        ) + " | "@ + decimal(row.runs) + " | "@ + with_suffix(
            values.instructions@,
            suffix_text(Some(comparisons[at]), changes[at].instructions),
        ) + " | "@ + with_suffix(
            values.heap_bytes@,
            suffix_text(Some(comparisons[at]), changes[at].heap_bytes),
        ) + " | "@ + with_suffix(
            values.memory_bytes@,
            suffix_text(Some(comparisons[at]), changes[at].memory_bytes),
        ) + " | "@ + with_suffix(
            values.total_allocation@,
            suffix_text(Some(comparisons[at]), changes[at].total_allocation),
        ) + " |\n"@,
{
}

proof fn lemma_last_row_has_key(rows: Seq<RowView>, key: KeyView, upto: int)
    requires
        0 <= upto <= rows.len(),
    ensures
        match last_row(rows, key, upto) {
            Some(at) => 0 <= at < upto && rows[at].key == key,
            None => forall|i: int| 0 <= i < upto ==> (#[trigger] rows[i]).key != key,
        },
    decreases upto,
{
    if upto > 0 {
        lemma_last_row_has_key(rows, key, upto - 1);
    }
}

/// Whether a number of spans is that of an aggregate with this key, if there is one.
pub open spec fn counts_runs(runs: Option<u64>, rows: Seq<RowView>, key: KeyView) -> bool {
    match runs {
        Some(count) => exists|i: int|
            0 <= i < rows.len() && (#[trigger] rows[i]).key == key && rows[i].runs == count,
        None => forall|i: int| 0 <= i < rows.len() ==> (#[trigger] rows[i]).key != key,
    }
}

/// A comparison covers every aggregate of either run once and no other; it counts the spans of the
/// current run and of the previous run under the same suite and label.
pub proof fn lemma_comparison_covers_both_runs(
    rows: Seq<BenchmarkComparisonRow>,
    current: Seq<RowView>,
    previous: Seq<RowView>,
)
    requires
        in_order(rows),
        forall|i: int| 0 <= i < rows.len() ==> is_compared(#[trigger] rows[i], current, previous),
        forall|key: KeyView| #[trigger]
            compares(rows, key) == (occurs(current, key, current.len() as int) || occurs(
                previous,
                key,
                previous.len() as int,
            )),
    ensures
        forall|i: int|
            #![trigger rows[i]]
            0 <= i < rows.len() ==> {
                let key = KeyView {
                    suite: rows[i].suite@,
                    span_label: rows[i].span_label@,
                    all_suites: rows[i].all_suites,
                };
                &&& counts_runs(rows[i].current_runs, current, key)
                &&& counts_runs(rows[i].previous_runs, previous, key)
                &&& rows[i].current_runs is Some || rows[i].previous_runs is Some
            },
        forall|i: int|
            #![trigger current[i]]
            0 <= i < current.len() ==> compares(rows, current[i].key),
        forall|i: int|
            #![trigger previous[i]]
            0 <= i < previous.len() ==> compares(rows, previous[i].key),
{
    assert forall|i: int| #![trigger rows[i]] 0 <= i < rows.len() implies {
        let key = KeyView {
            suite: rows[i].suite@,
            span_label: rows[i].span_label@,
            all_suites: rows[i].all_suites,
        };
        &&& counts_runs(rows[i].current_runs, current, key)
        &&& counts_runs(rows[i].previous_runs, previous, key)
        &&& rows[i].current_runs is Some || rows[i].previous_runs is Some
    } by {
        let key = comparison_key(rows[i]);
        assert(is_compared(rows[i], current, previous));
        lemma_last_row_has_key(current, key, current.len() as int);
        lemma_last_row_has_key(previous, key, previous.len() as int);
        assert(compares(rows, key));
    }
    assert forall|i: int| #![trigger current[i]] 0 <= i < current.len() implies compares(
        rows,
        current[i].key,
    ) by {
        assert(occurs(current, current[i].key, current.len() as int));
    }
    assert forall|i: int| #![trigger previous[i]] 0 <= i < previous.len() implies compares(
        rows,
        previous[i].key,
    ) by {
        assert(occurs(previous, previous[i].key, previous.len() as int));
    }
}

/// Whether a text is a header, a line feed and the lines of some rows.
pub open spec fn is_table(text: Seq<char>, header: Seq<char>, rows: Seq<Seq<Seq<char>>>) -> bool {
    text == header + "\n"@ + rows_text(rows)
}

/// Whether a text is a table of these rows.
pub open spec fn holds_rows(text: Seq<char>, rows: Seq<Seq<Seq<char>>>) -> bool {
    exists|header: Seq<char>| #[trigger] is_table(text, header, rows)
}

/// A report has ten files, each under its own name: the markers, the malformed ones, the spans, the
/// unpaired markers, the invalid spans, the aggregates of single suites and of all of them, the
/// comparison, the summary and the metadata.
pub proof fn lemma_files_of_reports(report: BenchmarkRunReport, figures: ReportFigures)
    ensures
        ({
            let files = report_files(report, figures);
            let rows = row_views(report.aggregates.rows@);
            let compared = match report.comparison {
                Some(comparison) => comparison.rows@,
                None => seq![],
            };
            &&& files.len() == 10
            &&& files[0].0 == "raw-events.csv"@
            &&& files[1].0 == "malformed-markers.csv"@
            &&& files[2].0 == "spans.csv"@
            &&& files[3].0 == "unpaired-markers.csv"@
            &&& files[4].0 == "invalid-spans.csv"@
            &&& files[5].0 == "suite-aggregates.csv"@
            &&& files[6].0 == "all-aggregates.csv"@
            &&& files[7].0 == "comparison.csv"@
            &&& files[8].0 == "bench-summary.md"@
            &&& files[9].0 == "metadata.json"@
            &&& holds_rows(
                files[5].1,
                chosen_cells(rows, figures.averages@, false, rows.len() as int),
            )
            &&& holds_rows(
                files[6].1,
                chosen_cells(rows, figures.averages@, true, rows.len() as int),
            )
            &&& holds_rows(
                files[7].1,
                comparisons_cells(compared, figures.change_cells@, compared.len() as int),
            )
        }),
{
    let files = report_files(report, figures);
    let rows = row_views(report.aggregates.rows@);
    let compared = match report.comparison {
        Some(comparison) => comparison.rows@,
        None => seq![],
    };
    let columns = "suite,span_label,runs,instructions_total,instructions_avg,heap_bytes_total,heap_bytes_avg,memory_bytes_total,memory_bytes_avg,total_allocation_total,total_allocation_avg"@;
    let changes = "suite,span_label,current_runs,previous_runs,instructions_avg_change_percent,heap_bytes_avg_change_percent,memory_bytes_avg_change_percent,total_allocation_avg_change_percent"@;
    let single = chosen_cells(rows, figures.averages@, false, rows.len() as int);
    let all = chosen_cells(rows, figures.averages@, true, rows.len() as int);
    let changed = comparisons_cells(compared, figures.change_cells@, compared.len() as int);
    assert(is_table(files[5].1, columns, single));
    assert(is_table(files[6].1, columns, all));
    assert(is_table(files[7].1, changes, changed));
}

} // verus!

//! Reports of a benchmark run as CSV and Markdown text.
//!
//! Averages and percentages are handed in as text; everything else of a
//! report is laid out here.

use vstd::prelude::*;
use vstd::string::*;
use super::aggregate::{
    row_views, BenchmarkAggregateReport, BenchmarkAggregateRow, KeyView, RowView,
};
use super::compare::{comparison_key, BenchmarkComparisonReport, BenchmarkComparisonRow};
use super::markers::{
    event_views, malformed_views, source_text, BenchmarkEventKind, BenchmarkParseReport, EventView,
    MalformedBenchmarkMarker, MalformedView, RawBenchmarkEvent,
};
use super::runs::{metadata_json, metadata_members, BenchmarkRunMetadata};
use super::spans::{
    invalid_views, span_views, unpaired_views, BenchmarkSpan, BenchmarkSpanReport,
    InvalidBenchmarkSpan, InvalidView, SpanView, UnpairedBenchmarkMarker,
    UnpairedBenchmarkMarkerKind, UnpairedView,
};
use crate::document::pretty_json;
use crate::text::{chars_of, decimal, decimal_text, has_char, text_equal, texts};

verus! {

/// A text with every quotation mark doubled.
pub open spec fn doubled(text: Seq<char>) -> Seq<char>
    decreases text.len(),
{
    if text.len() == 0 {
        seq![]
    } else if text.last() == '"' {
        doubled(text.drop_last()).push('"').push('"')
    } else {
        doubled(text.drop_last()).push(text.last())
    }
}

/// Whether a text has to be quoted in a CSV cell.
pub open spec fn needs_quotes(text: Seq<char>) -> bool {
    text.contains(',') || text.contains('"') || text.contains('\n') || text.contains('\r')
}

/// A text as a CSV cell.
pub open spec fn csv_text(text: Seq<char>) -> Seq<char> {
    if needs_quotes(text) {
        seq!['"'] + doubled(text) + seq!['"']
    } else {
        text
    }
}

/// A text as a CSV cell.
pub fn csv_cell(value: &str) -> (cell: String)
    ensures
        cell@ == csv_text(value@),
{
    if has_char(value, ',') || has_char(value, '"') || has_char(value, '\n') || has_char(
        value,
        '\r',
    ) {
        let chars = chars_of(value);
        let mut cell = String::new();
        cell.push('"');
        let mut at: usize = 0;
        assert(cell@ =~= seq!['"'] + doubled(chars@.take(0)));
        while at < chars.len()
            invariant
                at <= chars@.len(),
                cell@ == seq!['"'] + doubled(chars@.take(at as int)),
            decreases chars.len() - at,
        {
            let ghost before = cell@;
            proof {
                assert(chars@.take(at + 1).drop_last() =~= chars@.take(at as int));
                assert(chars@.take(at + 1).last() == chars@[at as int]);
            }
            if chars[at] == '"' {
                cell.push('"');
            }
            cell.push(chars[at]);
            assert(cell@ =~= seq!['"'] + doubled(chars@.take(at + 1)));
            at = at + 1;
        }
        assert(chars@.take(at as int) =~= value@);
        cell.push('"');
        assert(cell@ =~= csv_text(value@));
        cell
    } else {
        value.to_owned()
    }
}

proof fn lemma_doubled_last(text: Seq<char>)
    requires
        text.len() > 0,
    ensures
        doubled(text).len() > 0,
        doubled(text).last() == text.last(),
{
}

proof fn lemma_doubled_injective(left: Seq<char>, right: Seq<char>)
    requires
        doubled(left) == doubled(right),
    ensures
        left == right,
    decreases left.len(),
{
    if left.len() == 0 {
        if right.len() > 0 {
            lemma_doubled_last(right);
        }
        assert(left =~= right);
    } else if right.len() == 0 {
        lemma_doubled_last(left);
    } else {
        lemma_doubled_last(left);
        lemma_doubled_last(right);
        let (a, b) = (doubled(left), doubled(right));
        let (x, y) = (doubled(left.drop_last()), doubled(right.drop_last()));
        if left.last() == '"' {
            assert(a.drop_last().drop_last() =~= x);
            assert(b.drop_last().drop_last() =~= y);
        } else {
            assert(a.drop_last() =~= x);
            assert(b.drop_last() =~= y);
        }
        lemma_doubled_injective(left.drop_last(), right.drop_last());
        assert(left =~= left.drop_last().push(left.last()));
        assert(right =~= right.drop_last().push(right.last()));
    }
}

/// Different texts have different CSV cells.
pub proof fn lemma_csv_cell_injective(left: Seq<char>, right: Seq<char>)
    requires
        csv_text(left) == csv_text(right),
    ensures
        left == right,
{
    let (a, b) = (csv_text(left), csv_text(right));
    if needs_quotes(left) && needs_quotes(right) {
        assert(doubled(left) =~= a.subrange(1, a.len() - 1));
        assert(doubled(right) =~= b.subrange(1, b.len() - 1));
        lemma_doubled_injective(left, right);
    } else if needs_quotes(left) {
        assert(a[0] == '"');
        assert(right.contains('"'));
    } else if needs_quotes(right) {
        assert(b[0] == '"');
        assert(left.contains('"'));
    }
}

/// Cells of a CSV line, separated by commas.
pub open spec fn cells_text(cells: Seq<Seq<char>>) -> Seq<char>
    decreases cells.len(),
{
    if cells.len() == 0 {
        seq![]
    } else if cells.len() == 1 {
        cells[0]
    } else {
        cells_text(cells.drop_last()) + ","@ + cells.last()
    }
}

/// The lines of a CSV file below its header.
pub open spec fn rows_text(rows: Seq<Seq<Seq<char>>>) -> Seq<char>
    decreases rows.len(),
{
    if rows.len() == 0 {
        seq![]
    } else {
        rows_text(rows.drop_last()) + cells_text(rows.last()) + "\n"@
    }
}

/// A CSV file.
pub open spec fn table_text(header: Seq<char>, rows: Seq<Seq<Seq<char>>>) -> Seq<char> {
    header + "\n"@ + rows_text(rows)
}

fn append_cells(out: &mut String, cells: &Vec<String>)
    ensures
        final(out)@ == old(out)@ + cells_text(texts(cells@)) + "\n"@,
{
    let ghost start = out@;
    let ghost all = texts(cells@);
    let mut at: usize = 0;
    assert(start + cells_text(all.take(0)) =~= start);
    while at < cells.len()
        invariant
            at <= cells@.len(),
            all == texts(cells@),
            out@ == start + cells_text(all.take(at as int)),
        decreases cells.len() - at,
    {
        proof {
            assert(all.take(at + 1).drop_last() =~= all.take(at as int));
            assert(all.take(at + 1).last() == cells@[at as int]@);
        }
        if at > 0 {
            out.append(",");
        }
        out.append(cells[at].as_str());
        assert(out@ =~= start + cells_text(all.take(at + 1)));
        at = at + 1;
    }
    assert(all.take(at as int) =~= all);
    out.append("\n");
}

/// Name of a kind of marker.
pub open spec fn kind_text(kind: BenchmarkEventKind) -> Seq<char> {
    match kind {
        BenchmarkEventKind::Start => "start"@,
        BenchmarkEventKind::End => "end"@,
    }
}

/// Name of a kind of marker.
pub fn kind_str(kind: BenchmarkEventKind) -> (text: &'static str)
    ensures
        text@ == kind_text(kind),
{
    match kind {
        BenchmarkEventKind::Start => "start",
        BenchmarkEventKind::End => "end",
    }
}

/// Cells of a marker.
pub open spec fn event_cells(event: EventView) -> Seq<Seq<char>> {
    seq![
        decimal(event.source_line as nat),
        source_text(event.source),
        csv_text(event.prefix),
        csv_text(event.suite),
        csv_text(event.label),
        csv_text(event.span_label),
        kind_text(event.kind),
        decimal(event.counters.instructions as nat),
        decimal(event.counters.heap_bytes as nat),
        decimal(event.counters.memory_bytes as nat),
        decimal(event.counters.total_allocation as nat),
    ]
}

/// Markers as CSV.
pub fn raw_events_csv(events: &Vec<RawBenchmarkEvent>) -> (out: String)
    ensures
        out@ == table_text(
            "source_line,source,prefix,suite,label,span_label,kind,instructions,heap_bytes,memory_bytes,total_allocation"@,
            event_views(events@).map_values(|event: EventView| event_cells(event)),
        ),
{
    let mut out =
        "source_line,source,prefix,suite,label,span_label,kind,instructions,heap_bytes,memory_bytes,total_allocation".to_owned();
    out.append("\n");
    let ghost header = out@;
    let ghost all = event_views(events@).map_values(|event: EventView| event_cells(event));
    let mut at: usize = 0;
    assert(header + rows_text(all.take(0)) =~= header);
    while at < events.len()
        invariant
            at <= events@.len(),
            all == event_views(events@).map_values(|event: EventView| event_cells(event)),
            out@ == header + rows_text(all.take(at as int)),
        decreases events.len() - at,
    {
        let event = &events[at];
        let mut cells: Vec<String> = Vec::new();
        cells.push(decimal_text(event.source_line as u128));
        cells.push(event.source.as_str().to_owned());
        cells.push(csv_cell(event.prefix.as_str()));
        cells.push(csv_cell(event.suite.as_str()));
        cells.push(csv_cell(event.label.as_str()));
        cells.push(csv_cell(event.span_label.as_str()));
        cells.push(kind_str(event.kind).to_owned());
        cells.push(decimal_text(event.counters.instructions));
        cells.push(decimal_text(event.counters.heap_bytes));
        cells.push(decimal_text(event.counters.memory_bytes));
        cells.push(decimal_text(event.counters.total_allocation));
        proof {
            assert(texts(cells@) =~= event_cells(event@));
            assert(all.take(at + 1).drop_last() =~= all.take(at as int));
            assert(all.take(at + 1).last() == event_cells(event@));
        }
        append_cells(&mut out, &cells);
        assert(out@ =~= header + rows_text(all.take(at + 1)));
        at = at + 1;
    }
    assert(all.take(at as int) =~= all);
    out
}

/// Cells of a malformed marker.
pub open spec fn malformed_cells(marker: MalformedView) -> Seq<Seq<char>> {
    seq![
        decimal(marker.source_line as nat),
        source_text(marker.source),
        csv_text(marker.reason),
        csv_text(marker.line),
    ]
}

/// Malformed markers as CSV.
pub fn malformed_markers_csv(markers: &Vec<MalformedBenchmarkMarker>) -> (out: String)
    ensures
        out@ == table_text(
            "source_line,source,reason,line"@,
            malformed_views(markers@).map_values(|marker: MalformedView| malformed_cells(marker)),
        ),
{
    let mut out = "source_line,source,reason,line".to_owned();
    out.append("\n");
    let ghost header = out@;
    let ghost all = malformed_views(markers@).map_values(
        |marker: MalformedView| malformed_cells(marker),
    );
    let mut at: usize = 0;
    assert(header + rows_text(all.take(0)) =~= header);
    while at < markers.len()
        invariant
            at <= markers@.len(),
            all == malformed_views(markers@).map_values(
                |marker: MalformedView| malformed_cells(marker),
            ),
            out@ == header + rows_text(all.take(at as int)),
        decreases markers.len() - at,
    {
        let marker = &markers[at];
        let mut cells: Vec<String> = Vec::new();
        cells.push(decimal_text(marker.source_line as u128));
        cells.push(marker.source.as_str().to_owned());
        cells.push(csv_cell(marker.reason.as_str()));
        cells.push(csv_cell(marker.line.as_str()));
        proof {
            assert(texts(cells@) =~= malformed_cells(marker@));
            assert(all.take(at + 1).drop_last() =~= all.take(at as int));
            assert(all.take(at + 1).last() == malformed_cells(marker@));
        }
        append_cells(&mut out, &cells);
        assert(out@ =~= header + rows_text(all.take(at + 1)));
        at = at + 1;
    }
    assert(all.take(at as int) =~= all);
    out
}

/// Cells of a span.
pub open spec fn span_cells(span: SpanView) -> Seq<Seq<char>> {
    seq![
        csv_text(span.suite),
        csv_text(span.span_label),
        decimal(span.start_line as nat),
        decimal(span.end_line as nat),
        decimal(span.delta.instructions as nat),
        decimal(span.delta.heap_bytes as nat),
        decimal(span.delta.memory_bytes as nat),
        decimal(span.delta.total_allocation as nat),
    ]
}

/// Spans as CSV.
pub fn spans_csv(spans: &Vec<BenchmarkSpan>) -> (out: String)
    ensures
        out@ == table_text(
            "suite,span_label,start_line,end_line,instructions_delta,heap_bytes_delta,memory_bytes_delta,total_allocation_delta"@,
            span_views(spans@).map_values(|span: SpanView| span_cells(span)),
        ),
{
    let mut out =
        "suite,span_label,start_line,end_line,instructions_delta,heap_bytes_delta,memory_bytes_delta,total_allocation_delta".to_owned();
    out.append("\n");
    let ghost header = out@;
    let ghost all = span_views(spans@).map_values(|span: SpanView| span_cells(span));
    let mut at: usize = 0;
    assert(header + rows_text(all.take(0)) =~= header);
    while at < spans.len()
        invariant
            at <= spans@.len(),
            all == span_views(spans@).map_values(|span: SpanView| span_cells(span)),
            out@ == header + rows_text(all.take(at as int)),
        decreases spans.len() - at,
    {
        let span = &spans[at];
        let mut cells: Vec<String> = Vec::new();
        cells.push(csv_cell(span.suite.as_str()));
        cells.push(csv_cell(span.span_label.as_str()));
        cells.push(decimal_text(span.start_line as u128));
        cells.push(decimal_text(span.end_line as u128));
        cells.push(decimal_text(span.delta.instructions));
        cells.push(decimal_text(span.delta.heap_bytes));
        cells.push(decimal_text(span.delta.memory_bytes));
        cells.push(decimal_text(span.delta.total_allocation));
        proof {
            assert(texts(cells@) =~= span_cells(span@));
            assert(all.take(at + 1).drop_last() =~= all.take(at as int));
            assert(all.take(at + 1).last() == span_cells(span@));
        }
        append_cells(&mut out, &cells);
        assert(out@ =~= header + rows_text(all.take(at + 1)));
        at = at + 1;
    }
    assert(all.take(at as int) =~= all);
    out
}

/// Name of which partner a marker is missing.
pub open spec fn unpaired_text(kind: UnpairedBenchmarkMarkerKind) -> Seq<char> {
    match kind {
        UnpairedBenchmarkMarkerKind::Start => "start"@,
        UnpairedBenchmarkMarkerKind::End => "end"@,
    }
}

/// Cells of a marker without a partner.
pub open spec fn unpaired_cells(marker: UnpairedView) -> Seq<Seq<char>> {
    seq![
        decimal(marker.event.source_line as nat),
        source_text(marker.event.source),
        unpaired_text(marker.kind),
        csv_text(marker.event.suite),
        csv_text(marker.event.span_label),
        csv_text(marker.event.label),
    ]
}

/// Markers without a partner as CSV.
pub fn unpaired_markers_csv(markers: &Vec<UnpairedBenchmarkMarker>) -> (out: String)
    ensures
        out@ == table_text(
            "source_line,source,kind,suite,span_label,label"@,
            unpaired_views(markers@).map_values(|marker: UnpairedView| unpaired_cells(marker)),
        ),
{
    let mut out = "source_line,source,kind,suite,span_label,label".to_owned();
    out.append("\n");
    let ghost header = out@;
    let ghost all = unpaired_views(markers@).map_values(
        |marker: UnpairedView| unpaired_cells(marker),
    );
    let mut at: usize = 0;
    assert(header + rows_text(all.take(0)) =~= header);
    while at < markers.len()
        invariant
            at <= markers@.len(),
            all == unpaired_views(markers@).map_values(
                |marker: UnpairedView| unpaired_cells(marker),
            ),
            out@ == header + rows_text(all.take(at as int)),
        decreases markers.len() - at,
    {
        let marker = &markers[at];
        let kind = match marker.kind {
            UnpairedBenchmarkMarkerKind::Start => "start",
            UnpairedBenchmarkMarkerKind::End => "end",
        };
        let mut cells: Vec<String> = Vec::new();
        cells.push(decimal_text(marker.event.source_line as u128));
        cells.push(marker.event.source.as_str().to_owned());
        cells.push(kind.to_owned());
        cells.push(csv_cell(marker.event.suite.as_str()));
        cells.push(csv_cell(marker.event.span_label.as_str()));
        cells.push(csv_cell(marker.event.label.as_str()));
        proof {
            assert(texts(cells@) =~= unpaired_cells(marker@));
            assert(all.take(at + 1).drop_last() =~= all.take(at as int));
            assert(all.take(at + 1).last() == unpaired_cells(marker@));
        }
        append_cells(&mut out, &cells);
        assert(out@ =~= header + rows_text(all.take(at + 1)));
        at = at + 1;
    }
    assert(all.take(at as int) =~= all);
    out
}

/// Cells of an invalid span.
pub open spec fn invalid_cells(span: InvalidView) -> Seq<Seq<char>> {
    seq![
        decimal(span.start.source_line as nat),
        decimal(span.end.source_line as nat),
        csv_text(span.start.suite),
        csv_text(span.start.span_label),
        csv_text(span.reason),
    ]
}

/// Invalid spans as CSV.
pub fn invalid_spans_csv(spans: &Vec<InvalidBenchmarkSpan>) -> (out: String)
    ensures
        out@ == table_text(
            "start_line,end_line,suite,span_label,reason"@,
            invalid_views(spans@).map_values(|span: InvalidView| invalid_cells(span)),
        ),
{
    let mut out = "start_line,end_line,suite,span_label,reason".to_owned();
    out.append("\n");
    let ghost header = out@;
    let ghost all = invalid_views(spans@).map_values(|span: InvalidView| invalid_cells(span));
    let mut at: usize = 0;
    assert(header + rows_text(all.take(0)) =~= header);
    while at < spans.len()
        invariant
            at <= spans@.len(),
            all == invalid_views(spans@).map_values(|span: InvalidView| invalid_cells(span)),
            out@ == header + rows_text(all.take(at as int)),
        decreases spans.len() - at,
    {
        let span = &spans[at];
        let mut cells: Vec<String> = Vec::new();
        cells.push(decimal_text(span.start.source_line as u128));
        cells.push(decimal_text(span.end.source_line as u128));
        cells.push(csv_cell(span.start.suite.as_str()));
        cells.push(csv_cell(span.start.span_label.as_str()));
        cells.push(csv_cell(span.reason.as_str()));
        proof {
            assert(texts(cells@) =~= invalid_cells(span@));
            assert(all.take(at + 1).drop_last() =~= all.take(at as int));
            assert(all.take(at + 1).last() == invalid_cells(span@));
        }
        append_cells(&mut out, &cells);
        assert(out@ =~= header + rows_text(all.take(at + 1)));
        at = at + 1;
    }
    assert(all.take(at as int) =~= all);
    out
}

/// Four figures of an aggregate or a comparison, each as text.
#[derive(Clone, Debug)]
pub struct RenderedFigures {
    /// Figure for executed instructions.
    pub instructions: String,
    /// Figure for the size of the heap.
    pub heap_bytes: String,
    /// Figure for the size of stable memory.
    pub memory_bytes: String,
    /// Figure for allocated bytes.
    pub total_allocation: String,
}

/// Cells of an aggregate with its averages.
pub open spec fn aggregate_cells(row: RowView, averages: RenderedFigures) -> Seq<Seq<char>> {
    seq![
        csv_text(row.key.suite),
        csv_text(row.key.span_label),
        decimal(row.runs),
        decimal(row.total.instructions),
        averages.instructions@,
        decimal(row.total.heap_bytes),
        averages.heap_bytes@,
        decimal(row.total.memory_bytes),
        averages.memory_bytes@,
        decimal(row.total.total_allocation),
        averages.total_allocation@,
    ]
}

/// Cells of the aggregates among the first `upto` that are, or are not, over all suites.
pub open spec fn chosen_cells(
    rows: Seq<RowView>,
    averages: Seq<RenderedFigures>,
    all_suites: bool,
    upto: int,
) -> Seq<Seq<Seq<char>>>
    decreases upto,
{
    if upto <= 0 {
        seq![]
    } else if rows[upto - 1].key.all_suites == all_suites {
        chosen_cells(rows, averages, all_suites, upto - 1).push(
            aggregate_cells(rows[upto - 1], averages[upto - 1]),
        )
    } else {
        chosen_cells(rows, averages, all_suites, upto - 1)
    }
}

/// Aggregates over all suites, or the others, as CSV.
pub fn aggregates_csv(
    rows: &Vec<BenchmarkAggregateRow>,
    averages: &Vec<RenderedFigures>,
    all_suites: bool,
) -> (out: String)
    requires
        averages@.len() == rows@.len(),
    ensures
        out@ == table_text(
            "suite,span_label,runs,instructions_total,instructions_avg,heap_bytes_total,heap_bytes_avg,memory_bytes_total,memory_bytes_avg,total_allocation_total,total_allocation_avg"@,
            chosen_cells(row_views(rows@), averages@, all_suites, rows@.len() as int),
        ),
{
    let mut out =
        "suite,span_label,runs,instructions_total,instructions_avg,heap_bytes_total,heap_bytes_avg,memory_bytes_total,memory_bytes_avg,total_allocation_total,total_allocation_avg".to_owned();
    out.append("\n");
    let ghost header = out@;
    let ghost views = row_views(rows@);
    let mut at: usize = 0;
    assert(header + rows_text(chosen_cells(views, averages@, all_suites, 0)) =~= header);
    while at < rows.len()
        invariant
            at <= rows@.len(),
            averages@.len() == rows@.len(),
            views == row_views(rows@),
            out@ == header + rows_text(
                chosen_cells(views, averages@, all_suites, at as int),
            ),
        decreases rows.len() - at,
    {
        let row = &rows[at];
        assert(views[at as int] == row@);
        if row.all_suites == all_suites {
            let figures = &averages[at];
            let mut cells: Vec<String> = Vec::new();
            cells.push(csv_cell(row.suite.as_str()));
            cells.push(csv_cell(row.span_label.as_str()));
            cells.push(decimal_text(row.runs as u128));
            cells.push(decimal_text(row.total.instructions));
            cells.push(figures.instructions.clone());
            cells.push(decimal_text(row.total.heap_bytes));
            cells.push(figures.heap_bytes.clone());
            cells.push(decimal_text(row.total.memory_bytes));
            cells.push(figures.memory_bytes.clone());
            cells.push(decimal_text(row.total.total_allocation));
            cells.push(figures.total_allocation.clone());
            proof {
                let expected = aggregate_cells(row@, averages@[at as int]);
                assert(texts(cells@) =~= expected);
                let before = chosen_cells(views, averages@, all_suites, at as int);
                assert(before.push(expected).drop_last() =~= before);
            }
            append_cells(&mut out, &cells);
        }
        assert(out@ =~= header + rows_text(chosen_cells(views, averages@, all_suites, at + 1)));
        at = at + 1;
    }
    out
}

/// An optional number as a cell; nothing is an empty cell.
pub open spec fn optional_cell(value: Option<u64>) -> Seq<char> {
    match value {
        Some(number) => decimal(number as nat),
        None => ""@,
    }
}

fn optional_u64_cell(value: Option<u64>) -> (cell: String)
    ensures
        cell@ == optional_cell(value),
{
    match value {
        Some(number) => decimal_text(number as u128),
        None => "".to_owned(),
    }
}

/// Cells of a comparison with its changes in percent.
pub open spec fn comparison_cells(
    row: BenchmarkComparisonRow,
    changes: RenderedFigures,
) -> Seq<Seq<char>> {
    seq![
        csv_text(row.suite@),
        csv_text(row.span_label@),
        optional_cell(row.current_runs),
        optional_cell(row.previous_runs),
        changes.instructions@,
        changes.heap_bytes@,
        changes.memory_bytes@,
        changes.total_allocation@,
    ]
}

/// Cells of the first `upto` comparisons.
pub open spec fn comparisons_cells(
    rows: Seq<BenchmarkComparisonRow>,
    changes: Seq<RenderedFigures>,
    upto: int,
) -> Seq<Seq<Seq<char>>>
    decreases upto,
{
    if upto <= 0 {
        seq![]
    } else {
        comparisons_cells(rows, changes, upto - 1).push(
            comparison_cells(rows[upto - 1], changes[upto - 1]),
        )
    }
}

/// Comparisons as CSV; without a comparison the file holds its header only.
pub fn comparison_csv(rows: &Vec<BenchmarkComparisonRow>, changes: &Vec<RenderedFigures>) -> (out:
    String)
    requires
        changes@.len() == rows@.len(),
    ensures
        out@ == table_text(
            "suite,span_label,current_runs,previous_runs,instructions_avg_change_percent,heap_bytes_avg_change_percent,memory_bytes_avg_change_percent,total_allocation_avg_change_percent"@,
            comparisons_cells(rows@, changes@, rows@.len() as int),
        ),
{
    let mut out =
        "suite,span_label,current_runs,previous_runs,instructions_avg_change_percent,heap_bytes_avg_change_percent,memory_bytes_avg_change_percent,total_allocation_avg_change_percent".to_owned();
    out.append("\n");
    let ghost header = out@;
    let mut at: usize = 0;
    assert(header + rows_text(comparisons_cells(rows@, changes@, 0)) =~= header);
    while at < rows.len()
        invariant
            at <= rows@.len(),
            changes@.len() == rows@.len(),
            out@ == header + rows_text(comparisons_cells(rows@, changes@, at as int)),
        decreases rows.len() - at,
    {
        let row = &rows[at];
        let figures = &changes[at];
        let mut cells: Vec<String> = Vec::new();
        cells.push(csv_cell(row.suite.as_str()));
        cells.push(csv_cell(row.span_label.as_str()));
        cells.push(optional_u64_cell(row.current_runs));
        cells.push(optional_u64_cell(row.previous_runs));
        cells.push(figures.instructions.clone());
        cells.push(figures.heap_bytes.clone());
        cells.push(figures.memory_bytes.clone());
        cells.push(figures.total_allocation.clone());
        proof {
            let expected = comparison_cells(rows@[at as int], changes@[at as int]);
            assert(texts(cells@) =~= expected);
            let before = comparisons_cells(rows@, changes@, at as int);
            assert(before.push(expected).drop_last() =~= before);
        }
        append_cells(&mut out, &cells);
        assert(out@ =~= header + rows_text(comparisons_cells(rows@, changes@, at + 1)));
        at = at + 1;
    }
    out
}

/// A text with every bar escaped for a Markdown table.
pub open spec fn escaped(text: Seq<char>) -> Seq<char>
    decreases text.len(),
{
    if text.len() == 0 {
        seq![]
    } else if text.last() == '|' {
        escaped(text.drop_last()).push('\\').push('|')
    } else {
        escaped(text.drop_last()).push(text.last())
    }
}

/// A text as a cell of a Markdown table.
pub fn markdown_cell(value: &str) -> (cell: String)
    ensures
        cell@ == escaped(value@),
{
    let chars = chars_of(value);
    let mut cell = String::new();
    let mut at: usize = 0;
    assert(cell@ =~= escaped(chars@.take(0)));
    while at < chars.len()
        invariant
            at <= chars@.len(),
            cell@ == escaped(chars@.take(at as int)),
        decreases chars.len() - at,
    {
        proof {
            assert(chars@.take(at + 1).drop_last() =~= chars@.take(at as int));
            assert(chars@.take(at + 1).last() == chars@[at as int]);
        }
        if chars[at] == '|' {
            cell.push('\\');
        }
        cell.push(chars[at]);
        at = at + 1;
    }
    assert(chars@.take(at as int) =~= value@);
    cell
}

/// A figure with its change behind it, when there is one.
pub open spec fn with_suffix(value: Seq<char>, suffix: Option<Seq<char>>) -> Seq<char> {
    match suffix {
        Some(text) => value + " ("@ + text + ")"@,
        None => value,
    }
}

/// A figure with its change behind it, when there is one.
pub fn with_optional_suffix(value: &str, suffix: &Option<String>) -> (text: String)
    ensures
        text@ == with_suffix(
            value@,
            match *suffix {
                Some(found) => Some(found@),
                None => None,
            },
        ),
{
    let mut text = value.to_owned();
    match suffix {
        Some(suffix) => {
            text.append(" (");
            text.append(suffix.as_str());
            text.append(")");
        },
        None => {},
    }
    text
}

/// What stands behind a figure: `new` for an aggregate without a previous run, else its change.
pub open spec fn suffix_text(
    comparison: Option<BenchmarkComparisonRow>,
    change: Option<String>,
) -> Option<Seq<char>> {
    match comparison {
        None => None,
        Some(row) => match (row.previous_runs, change) {
            (None, _) => Some("new"@),
            (Some(_), Some(percent)) => Some(percent@),
            (Some(_), None) => None,
        },
    }
}

/// What stands behind a figure: `new` for an aggregate without a previous run, else its change.
pub fn change_suffix(comparison: Option<&BenchmarkComparisonRow>, change: &Option<String>) -> (suffix:
    Option<String>)
    ensures
        match (
            suffix,
            suffix_text(
                match comparison {
                    Some(row) => Some(*row),
                    None => None,
                },
                *change,
            ),
        ) {
            (Some(text), Some(expected)) => text@ == expected,
            (None, None) => true,
            _ => false,
        },
{
    match comparison {
        None => None,
        Some(row) => {
            if row.previous_runs.is_none() {
                return Some("new".to_owned());
            }
            match change {
                Some(percent) => Some(percent.clone()),
                None => None,
            }
        },
    }
}

/// Position of the last of the first `upto` comparisons with this key.
pub open spec fn comparison_at(
    rows: Seq<BenchmarkComparisonRow>,
    key: KeyView,
    upto: int,
) -> Option<int>
    decreases upto,
{
    if upto <= 0 {
        None
    } else if comparison_key(rows[upto - 1]) == key {
        Some(upto - 1)
    } else {
        comparison_at(rows, key, upto - 1)
    }
}

/// The comparison of an aggregate.
pub fn find_comparison(rows: &Vec<BenchmarkComparisonRow>, row: &BenchmarkAggregateRow) -> (found:
    Option<usize>)
    ensures
        match (found, comparison_at(rows@, row@.key, rows@.len() as int)) {
            (Some(at), Some(expected)) => at == expected && at < rows@.len(),
            (None, None) => true,
            _ => false,
        },
{
    let mut at: usize = rows.len();
    while at > 0
        invariant
            at <= rows@.len(),
            comparison_at(rows@, row@.key, rows@.len() as int) == comparison_at(
                rows@,
                row@.key,
                at as int,
            ),
        decreases at,
    {
        let candidate = &rows[at - 1];
        if candidate.all_suites == row.all_suites && text_equal(
            candidate.suite.as_str(),
            row.suite.as_str(),
        ) && text_equal(candidate.span_label.as_str(), row.span_label.as_str()) {
            return Some(at - 1);
        }
        at = at - 1;
    }
    None
}

/// Changes of one aggregate as text, where there are any.
#[derive(Clone, Debug)]
pub struct RenderedChanges {
    /// Change of executed instructions.
    pub instructions: Option<String>,
    /// Change of the size of the heap.
    pub heap_bytes: Option<String>,
    /// Change of the size of stable memory.
    pub memory_bytes: Option<String>,
    /// Change of allocated bytes.
    pub total_allocation: Option<String>,
}

/// One figure of the summary: a value, and how it changed.
pub open spec fn summary_figure(
    value: String,
    comparison: Option<BenchmarkComparisonRow>,
    change: Option<String>,
) -> Seq<char> {
    with_suffix(value@, suffix_text(comparison, change))
}

fn figure_of(
    value: &String,
    comparison: Option<&BenchmarkComparisonRow>,
    change: &Option<String>,
) -> (text: String)
    ensures
        text@ == summary_figure(
            *value,
            match comparison {
                Some(row) => Some(*row),
                None => None,
            },
            *change,
        ),
{
    with_optional_suffix(value.as_str(), &change_suffix(comparison, change))
}

/// No change at all.
pub open spec fn unchanged() -> RenderedChanges {
    RenderedChanges {
        instructions: None,
        heap_bytes: None,
        memory_bytes: None,
        total_allocation: None,
    }
}

/// One line of the Markdown summary.
pub open spec fn summary_line(
    row: RowView,
    values: RenderedFigures,
    comparison: Option<BenchmarkComparisonRow>,
    changes: RenderedChanges,
) -> Seq<char> {
    "| "@ + escaped(row.key.span_label) + " | "@ + decimal(row.runs) + " | "@ + summary_figure(
        values.instructions,
        comparison,
        changes.instructions,
    ) + " | "@ + summary_figure(values.heap_bytes, comparison, changes.heap_bytes) + " | "@
        + summary_figure(values.memory_bytes, comparison, changes.memory_bytes) + " | "@
        + summary_figure(values.total_allocation, comparison, changes.total_allocation) + " |\n"@
}

/// The line of the Markdown summary for an aggregate, with its comparison where there is one.
pub open spec fn compared_line(
    row: RowView,
    values: RenderedFigures,
    comparisons: Seq<BenchmarkComparisonRow>,
    changes: Seq<RenderedChanges>,
) -> Seq<char> {
    match comparison_at(comparisons, row.key, comparisons.len() as int) {
        Some(at) => summary_line(row, values, Some(comparisons[at]), changes[at]),
        None => summary_line(row, values, None, unchanged()),
    }
}

/// The lines of the Markdown summary among the first `upto` aggregates: those of single suites.
pub open spec fn summary_lines(
    rows: Seq<RowView>,
    values: Seq<RenderedFigures>,
    comparisons: Seq<BenchmarkComparisonRow>,
    changes: Seq<RenderedChanges>,
    upto: int,
) -> Seq<char>
    decreases upto,
{
    if upto <= 0 {
        seq![]
    } else {
        let before = summary_lines(rows, values, comparisons, changes, upto - 1);
        if rows[upto - 1].key.all_suites {
            before
        } else {
            before + compared_line(rows[upto - 1], values[upto - 1], comparisons, changes)
        }
    }
}

/// Everything above the lines of the Markdown summary.
pub open spec fn summary_head() -> Seq<char> {
    "# Benchmark Summary\n\n| Benchmark | Runs | Instructions Avg | Heap Delta Avg | Memory Delta Avg | Allocation Avg |\n| --- | ---: | ---: | ---: | ---: | ---: |\n"@
}

fn append_summary_line(
    out: &mut String,
    row: &BenchmarkAggregateRow,
    values: &RenderedFigures,
    comparison: Option<&BenchmarkComparisonRow>,
    changes: &RenderedChanges,
)
    ensures
        final(out)@ == old(out)@ + summary_line(
            row@,
            *values,
            match comparison {
                Some(found) => Some(*found),
                None => None,
            },
            *changes,
        ),
{
    let ghost before = out@;
    out.append("| ");
    out.append(markdown_cell(row.span_label.as_str()).as_str());
    out.append(" | ");
    out.append(decimal_text(row.runs as u128).as_str());
    out.append(" | ");
    out.append(figure_of(&values.instructions, comparison, &changes.instructions).as_str());
    out.append(" | ");
    out.append(figure_of(&values.heap_bytes, comparison, &changes.heap_bytes).as_str());
    out.append(" | ");
    out.append(figure_of(&values.memory_bytes, comparison, &changes.memory_bytes).as_str());
    out.append(" | ");
    out.append(figure_of(&values.total_allocation, comparison, &changes.total_allocation).as_str());
    out.append(" |\n");
    assert(out@ =~= before + summary_line(
        row@,
        *values,
        match comparison {
            Some(found) => Some(*found),
            None => None,
        },
        *changes,
    ));
}

/// The Markdown summary of a run.
///
/// `values` holds the averages of each aggregate and `changes` the changes of
/// each comparison; without a previous run there are no comparisons.
pub fn benchmark_summary_markdown(
    rows: &Vec<BenchmarkAggregateRow>,
    values: &Vec<RenderedFigures>,
    comparisons: &Vec<BenchmarkComparisonRow>,
    changes: &Vec<RenderedChanges>,
) -> (out: String)
    requires
        values@.len() == rows@.len(),
        changes@.len() == comparisons@.len(),
    ensures
        out@ == summary_head() + summary_lines(
            row_views(rows@),
            values@,
            comparisons@,
            changes@,
            rows@.len() as int,
        ),
{
    let mut out =
        "# Benchmark Summary\n\n| Benchmark | Runs | Instructions Avg | Heap Delta Avg | Memory Delta Avg | Allocation Avg |\n| --- | ---: | ---: | ---: | ---: | ---: |\n".to_owned();
    let ghost views = row_views(rows@);
    let none = RenderedChanges {
        instructions: None,
        heap_bytes: None,
        memory_bytes: None,
        total_allocation: None,
    };
    let mut at: usize = 0;
    assert(summary_head() + summary_lines(views, values@, comparisons@, changes@, 0)
        =~= summary_head());
    while at < rows.len()
        invariant
            at <= rows@.len(),
            values@.len() == rows@.len(),
            changes@.len() == comparisons@.len(),
            none == unchanged(),
            views == row_views(rows@),
            out@ == summary_head() + summary_lines(
                views,
                values@,
                comparisons@,
                changes@,
                at as int,
            ),
        decreases rows.len() - at,
    {
        let row = &rows[at];
        assert(views[at as int] == row@);
        if !row.all_suites {
            match find_comparison(comparisons, row) {
                Some(place) => append_summary_line(
                    &mut out,
                    row,
                    &values[at],
                    Some(&comparisons[place]),
                    &changes[place],
                ),
                None => append_summary_line(&mut out, row, &values[at], None, &none),
            }
        }
        assert(out@ =~= summary_head() + summary_lines(
            views,
            values@,
            comparisons@,
            changes@,
            at + 1,
        ));
        at = at + 1;
    }
    out
}

/// Everything that is reported about a run.
#[derive(Debug)]
pub struct BenchmarkRunReport {
    /// Markers of the run.
    pub parse: BenchmarkParseReport,
    /// Spans of the run.
    pub spans: BenchmarkSpanReport,
    /// Aggregates of the spans.
    pub aggregates: BenchmarkAggregateReport,
    /// Comparison with a previous run.
    pub comparison: Option<BenchmarkComparisonReport>,
    /// Metadata of the run.
    pub metadata: BenchmarkRunMetadata,
}

/// Figures of a report as text.
#[derive(Debug)]
pub struct ReportFigures {
    /// Averages of each aggregate, as CSV cells.
    pub averages: Vec<RenderedFigures>,
    /// Averages of each aggregate, for the summary.
    pub values: Vec<RenderedFigures>,
    /// Changes of each comparison, as CSV cells.
    pub change_cells: Vec<RenderedFigures>,
    /// Changes of each comparison, for the summary.
    pub changes: Vec<RenderedChanges>,
}

/// A file of a report.
#[derive(Debug)]
pub struct ReportFile {
    /// Name of the file.
    pub name: &'static str,
    /// What the file holds.
    pub contents: String,
}

/// Comparisons of a report.
pub open spec fn comparisons_of(report: BenchmarkRunReport) -> Seq<BenchmarkComparisonRow> {
    match report.comparison {
        Some(comparison) => comparison.rows@,
        None => seq![],
    }
}

/// Whether there are figures for every aggregate and every comparison of a report.
pub open spec fn are_figures_for(figures: ReportFigures, report: BenchmarkRunReport) -> bool {
    &&& figures.averages@.len() == report.aggregates.rows@.len()
    &&& figures.values@.len() == report.aggregates.rows@.len()
    &&& figures.change_cells@.len() == comparisons_of(report).len()
    &&& figures.changes@.len() == comparisons_of(report).len()
}

/// Name and contents of every file of a report, in the order in which they are written.
pub open spec fn report_files(report: BenchmarkRunReport, figures: ReportFigures) -> Seq<
    (Seq<char>, Seq<char>),
> {
    let rows = row_views(report.aggregates.rows@);
    let comparisons = comparisons_of(report);
    seq![
        (
            "raw-events.csv"@,
            table_text(
                "source_line,source,prefix,suite,label,span_label,kind,instructions,heap_bytes,memory_bytes,total_allocation"@,
                event_views(report.parse.events@).map_values(|event: EventView| event_cells(event)),
            ),
        ),
        (
            "malformed-markers.csv"@,
            table_text(
                "source_line,source,reason,line"@,
                malformed_views(report.parse.malformed_markers@).map_values(
                    |marker: MalformedView| malformed_cells(marker),
                ),
            ),
        ),
        (
            "spans.csv"@,
            table_text(
                "suite,span_label,start_line,end_line,instructions_delta,heap_bytes_delta,memory_bytes_delta,total_allocation_delta"@,
                span_views(report.spans.spans@).map_values(|span: SpanView| span_cells(span)),
            ),
        ),
        (
            "unpaired-markers.csv"@,
            table_text(
                "source_line,source,kind,suite,span_label,label"@,
                unpaired_views(report.spans.unpaired_markers@).map_values(
                    |marker: UnpairedView| unpaired_cells(marker),
                ),
            ),
        ),
        (
            "invalid-spans.csv"@,
            table_text(
                "start_line,end_line,suite,span_label,reason"@,
                invalid_views(report.spans.invalid_spans@).map_values(
                    |span: InvalidView| invalid_cells(span),
                ),
            ),
        ),
        (
            "suite-aggregates.csv"@,
            table_text(
                "suite,span_label,runs,instructions_total,instructions_avg,heap_bytes_total,heap_bytes_avg,memory_bytes_total,memory_bytes_avg,total_allocation_total,total_allocation_avg"@,
                chosen_cells(rows, figures.averages@, false, rows.len() as int),
            ),
        ),
        (
            "all-aggregates.csv"@,
            table_text(
                "suite,span_label,runs,instructions_total,instructions_avg,heap_bytes_total,heap_bytes_avg,memory_bytes_total,memory_bytes_avg,total_allocation_total,total_allocation_avg"@,
                chosen_cells(rows, figures.averages@, true, rows.len() as int),
            ),
        ),
        (
            "comparison.csv"@,
            table_text(
                "suite,span_label,current_runs,previous_runs,instructions_avg_change_percent,heap_bytes_avg_change_percent,memory_bytes_avg_change_percent,total_allocation_avg_change_percent"@,
                comparisons_cells(comparisons, figures.change_cells@, comparisons.len() as int),
            ),
        ),
        (
            "bench-summary.md"@,
            summary_head() + summary_lines(
                rows,
                figures.values@,
                comparisons,
                figures.changes@,
                rows.len() as int,
            ),
        ),
        ("metadata.json"@, pretty_json(metadata_members(report.metadata@)).push('\n')),
    ]
}

fn report_file(name: &'static str, contents: String) -> (file: ReportFile)
    ensures
        file.name@ == name@,
        file.contents == contents,
{
    ReportFile { name, contents }
}

/// The files that are written into the directory of a run.
pub fn write_benchmark_report_dir(
    report: &BenchmarkRunReport,
    figures: &ReportFigures,
) -> (files: Vec<ReportFile>)
    requires
        are_figures_for(*figures, *report),
    ensures
        files@.map_values(|file: ReportFile| (file.name@, file.contents@)) == report_files(
            *report,
            *figures,
        ),
{
    let rows = &report.aggregates.rows;
    let none: Vec<BenchmarkComparisonRow> = Vec::new();
    let comparisons = match &report.comparison {
        Some(comparison) => &comparison.rows,
        None => &none,
    };
    assert(comparisons@ =~= comparisons_of(*report));
    let mut files: Vec<ReportFile> = Vec::new();
    files.push(report_file("raw-events.csv", raw_events_csv(&report.parse.events)));
    files.push(
        report_file(
            "malformed-markers.csv",
            malformed_markers_csv(&report.parse.malformed_markers),
        ),
    );
    files.push(report_file("spans.csv", spans_csv(&report.spans.spans)));
    files.push(
        report_file("unpaired-markers.csv", unpaired_markers_csv(&report.spans.unpaired_markers)),
    );
    files.push(report_file("invalid-spans.csv", invalid_spans_csv(&report.spans.invalid_spans)));
    files.push(
        report_file("suite-aggregates.csv", aggregates_csv(rows, &figures.averages, false)),
    );
    files.push(report_file("all-aggregates.csv", aggregates_csv(rows, &figures.averages, true)));
    files.push(report_file("comparison.csv", comparison_csv(comparisons, &figures.change_cells)));
    files.push(
        report_file(
            "bench-summary.md",
            benchmark_summary_markdown(rows, &figures.values, comparisons, &figures.changes),
        ),
    );
    files.push(report_file("metadata.json", metadata_json(&report.metadata)));
    assert(files@.map_values(|file: ReportFile| (file.name@, file.contents@)) =~= report_files(
        *report,
        *figures,
    ));
    files
}

} // verus!

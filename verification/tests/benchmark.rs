use ic_testkit::benchmark::aggregate::{
    aggregate_benchmark_spans, try_aggregate_benchmark_spans, BenchmarkAggregateReport,
    BenchmarkAggregateRow,
};
use ic_testkit::benchmark::compare::compare_benchmark_aggregates;
use ic_testkit::benchmark::markers::{
    format_marker, parse_benchmark_events, parse_benchmark_events_from_captured_output,
    parse_benchmark_events_from_source, BenchmarkCounters, BenchmarkEventKind,
    BenchmarkEventSource, BenchmarkParseReport, BenchmarkParserConfig, SuiteDerivation,
    DEFAULT_PREFIX,
};
use ic_testkit::benchmark::report::{
    aggregates_csv, benchmark_summary_markdown, comparison_csv, csv_cell, invalid_spans_csv,
    malformed_markers_csv, markdown_cell, raw_events_csv, spans_csv, unpaired_markers_csv,
    write_benchmark_report_dir, BenchmarkRunReport, RenderedChanges, RenderedFigures,
    ReportFigures,
};
use ic_testkit::benchmark::runs::{
    benchmark_run_directory_name, find_latest_previous_run, metadata_json,
    next_benchmark_run_directory, next_run_index, read_benchmark_run_metadata,
    run_index_from_directory_name, short_commit_hash, BenchmarkRunMetadata, RunCandidate,
};
use ic_testkit::benchmark::spans::{
    pair_benchmark_spans, BenchmarkSpan, BenchmarkSpanReport, UnpairedBenchmarkMarkerKind,
};
use ic_testkit::performance::Performance;

fn counters(instructions: u128, heap: u128, memory: u128, allocation: u128) -> BenchmarkCounters {
    BenchmarkCounters {
        instructions,
        heap_bytes: heap,
        memory_bytes: memory,
        total_allocation: allocation,
    }
}

fn parse(input: &str) -> BenchmarkParseReport {
    parse_benchmark_events(input, &BenchmarkParserConfig::default())
}

fn spans_of(input: &str) -> BenchmarkSpanReport {
    pair_benchmark_spans(&parse(input).events)
}

#[test]
fn formatted_markers_are_read_back() {
    let line = format_marker(DEFAULT_PREFIX, "orders/create:start", counters(100, 2, 3, 4));
    assert_eq!(line, "ICTK|orders/create:start|100|2|3|4");
    let report = parse(&line);
    assert_eq!(report.events.len(), 1);
    assert_eq!(report.malformed_markers.len(), 0);
    assert_eq!(report.ignored_line_count, 0);
    let event = &report.events[0];
    assert_eq!(event.prefix, "ICTK");
    assert_eq!(event.label, "orders/create:start");
    assert_eq!(event.suite, "orders");
    assert_eq!(event.span_label, "orders/create");
    assert_eq!(event.kind, BenchmarkEventKind::Start);
    assert_eq!(event.counters, counters(100, 2, 3, 4));
    assert_eq!(event.source_line, 1);
    assert_eq!(event.source, BenchmarkEventSource::Unknown);
}

#[test]
fn log_noise_is_ignored_unless_reading_is_strict() {
    let input = "plain log\r\n\n  \nICTK|a:start|1|1|1|1\n";
    let report = parse(input);
    assert_eq!(report.events.len(), 1);
    assert_eq!(report.events[0].source_line, 4);
    assert_eq!(report.ignored_line_count, 3);
    let strict = BenchmarkParserConfig { strict: true, ..BenchmarkParserConfig::default() };
    let report = parse_benchmark_events_from_source(input, &strict, BenchmarkEventSource::FetchedLog);
    assert_eq!(report.ignored_line_count, 2);
    assert_eq!(report.malformed_markers.len(), 1);
    assert_eq!(report.malformed_markers[0].line, "plain log");
    assert_eq!(report.malformed_markers[0].source_line, 1);
    assert_eq!(report.malformed_markers[0].source.as_str(), "fetched_log");
    assert_eq!(
        report.malformed_markers[0].reason,
        "line does not use a configured marker prefix"
    );
}

#[test]
fn malformed_markers_say_what_is_wrong() {
    let cases = [
        ("ICTK|a:start|1|1|1", "expected six pipe-separated columns"),
        ("ICTK||1|1|1|1", "label is empty"),
        ("ICTK|a|1|1|1|1", "label must end in :start or :end"),
        ("ICTK|:start|1|1|1|1", "label must end in :start or :end"),
        ("ICTK|a:start||1|1|1", "instructions counter is empty"),
        ("ICTK|a:start|1|x|1|1", "heap_bytes counter is not an unsigned integer"),
        ("ICTK|a:start|1|1|-1|1", "memory_bytes counter is not an unsigned integer"),
        (
            "ICTK|a:start|1|1|1|340282366920938463463374607431768211456",
            "total_allocation counter is not an unsigned integer",
        ),
    ];
    for (line, reason) in cases {
        let report = parse(line);
        assert_eq!(report.events.len(), 0);
        assert_eq!(report.malformed_markers.len(), 1);
        assert_eq!(report.malformed_markers[0].reason, reason);
        assert_eq!(report.malformed_markers[0].line, line);
    }
    let largest = parse("ICTK|a:start|340282366920938463463374607431768211455|+1|01|1");
    assert_eq!(largest.events[0].counters, counters(u128::MAX, 1, 1, 1));
}

#[test]
fn a_longer_prefix_is_not_taken_for_a_shorter_one() {
    let mut config = BenchmarkParserConfig::default();
    config.prefixes = vec!["A|B".to_owned()];
    let report = parse_benchmark_events("A|B|x:start|1|1|1", &config);
    assert_eq!(report.malformed_markers[0].reason, "prefix is not configured");
    config.prefixes = vec!["X".to_owned(), "Y".to_owned()];
    config.suite_derivation = SuiteDerivation::Fixed("fixed".to_owned());
    let report = parse_benchmark_events("Y|/x:end|1|1|1|1\nICTK|a:end|1|1|1|1", &config);
    assert_eq!(report.events[0].suite, "fixed");
    assert_eq!(report.ignored_line_count, 1);
    let report = parse("ICTK|/x:end|1|1|1|1");
    assert_eq!(report.events[0].suite, "/x");
}

#[test]
fn captured_streams_are_read_one_after_the_other() {
    let report = parse_benchmark_events_from_captured_output(
        "ICTK|a:start|1|1|1|1\nnoise",
        "ICTK|a:end|2|2|2|2\nICTK|bad",
        &BenchmarkParserConfig::default(),
    );
    assert_eq!(report.events.len(), 2);
    assert_eq!(report.events[0].source, BenchmarkEventSource::Stdout);
    assert_eq!(report.events[1].source, BenchmarkEventSource::Stderr);
    assert_eq!(report.malformed_markers[0].source, BenchmarkEventSource::Stderr);
    assert_eq!(report.malformed_markers[0].source_line, 2);
    assert_eq!(report.ignored_line_count, 1);
}

#[test]
fn spans_nest_by_label() {
    let report = spans_of(
        "ICTK|a:start|1|1|1|1\nICTK|a:start|2|2|2|2\nICTK|b:start|3|3|3|3\nICTK|a:end|10|10|10|10\nICTK|a:end|20|20|20|20\n",
    );
    assert_eq!(report.spans.len(), 2);
    assert_eq!(report.spans[0].start_line, 2);
    assert_eq!(report.spans[0].end_line, 4);
    assert_eq!(report.spans[0].delta, counters(8, 8, 8, 8));
    assert_eq!(report.spans[1].start_line, 1);
    assert_eq!(report.spans[1].delta, counters(19, 19, 19, 19));
    assert_eq!(report.unpaired_markers.len(), 1);
    assert_eq!(report.unpaired_markers[0].kind, UnpairedBenchmarkMarkerKind::Start);
    assert_eq!(report.unpaired_markers[0].event.span_label, "b");
}

#[test]
fn ends_without_a_start_and_falling_counters_are_reported() {
    let report = spans_of("ICTK|a:end|1|1|1|1\nICTK|b:start|5|5|5|5\nICTK|b:end|6|4|6|6\n");
    assert_eq!(report.spans.len(), 0);
    assert_eq!(report.unpaired_markers[0].kind, UnpairedBenchmarkMarkerKind::End);
    assert_eq!(report.invalid_spans.len(), 1);
    assert_eq!(report.invalid_spans[0].reason, "end counter is lower than start counter");
    assert_eq!(report.invalid_spans[0].start.source_line, 2);
    assert_eq!(report.invalid_spans[0].end.source_line, 3);
}

fn aggregates(input: &str) -> BenchmarkAggregateReport {
    try_aggregate_benchmark_spans(&spans_of(input).spans).expect("sums fit")
}

const TWO_RUNS: &str = "ICTK|s/a:start|1|1|1|1\nICTK|s/a:end|3|2|5|1\nICTK|s/a:start|10|10|10|10\nICTK|s/a:end|20|11|12|10\n";

#[test]
fn aggregates_sum_and_bound_their_spans() {
    let report = aggregates(TWO_RUNS);
    assert_eq!(report.rows.len(), 2);
    for row in &report.rows {
        assert_eq!(row.span_label, "s/a");
        assert_eq!(row.runs, 2);
        assert_eq!(row.total, counters(12, 2, 6, 0));
        assert_eq!(row.min, counters(2, 1, 2, 0));
        assert_eq!(row.max, counters(10, 1, 4, 0));
        assert_eq!(row.peak_end, counters(20, 11, 12, 10));
    }
    assert_eq!(report.rows.iter().filter(|row| row.is_all_suites()).count(), 1);
    let spans = spans_of(TWO_RUNS).spans;
    assert_eq!(aggregate_benchmark_spans(&spans).rows.len(), 2);
    assert_eq!(aggregate_benchmark_spans(&Vec::new()).rows.len(), 0);
}

#[test]
fn aggregates_ignore_the_order_of_spans() {
    let mut spans = spans_of(TWO_RUNS).spans;
    let forward = try_aggregate_benchmark_spans(&spans).expect("sums fit");
    spans.reverse();
    let backward = try_aggregate_benchmark_spans(&spans).expect("sums fit");
    assert_eq!(format!("{forward:?}"), format!("{backward:?}"));
}

#[test]
fn a_suite_named_all_stays_apart_from_the_aggregate_of_all_suites() {
    let report = aggregates("ICTK|ALL/x:start|0|0|0|0\nICTK|ALL/x:end|1|1|1|1\n");
    assert_eq!(report.rows.len(), 2);
    assert_eq!(report.rows.iter().filter(|row| !row.is_all_suites()).count(), 1);
}

#[test]
fn sums_beyond_the_largest_counter_are_refused() {
    let span = BenchmarkSpan {
        suite: "s".to_owned(),
        span_label: "s/a".to_owned(),
        start_line: 1,
        end_line: 2,
        start: counters(0, 0, 0, 0),
        end: counters(u128::MAX, 0, 0, 0),
        delta: counters(u128::MAX, 0, 0, 0),
    };
    assert!(try_aggregate_benchmark_spans(&vec![span.clone()]).is_some());
    assert!(try_aggregate_benchmark_spans(&vec![span.clone(), span]).is_none());
}

#[test]
fn captured_markers_are_parsed_paired_and_aggregated() {
    let input = "\
ICTK|storage/write:start|100|200|300|400
ICTK|storage/write:end|150|260|390|430
";
    let parsed = ic_testkit::benchmark::parse_benchmark_events(
        input,
        &ic_testkit::benchmark::BenchmarkParserConfig::default(),
    );
    let spans = ic_testkit::benchmark::pair_benchmark_spans(&parsed.events);
    let aggregates = ic_testkit::benchmark::aggregate_benchmark_spans(&spans.spans);

    assert_eq!(aggregates.rows[0].span_label, "storage/write");
    assert_eq!(aggregates.rows[0].total, counters(50, 60, 90, 30));
}

fn row(report: &BenchmarkAggregateReport, label: &str, all: bool) -> BenchmarkAggregateRow {
    report
        .rows
        .iter()
        .find(|row| row.span_label == label && row.is_all_suites() == all)
        .expect("aggregate")
        .clone()
}

#[test]
fn comparisons_hold_every_aggregate_of_either_run_once() {
    let current = aggregates("ICTK|s/a:start|0|0|0|0\nICTK|s/a:end|1|1|1|1\n");
    let previous = aggregates(
        "ICTK|s/a:start|0|0|0|0\nICTK|s/a:end|2|2|2|2\nICTK|s/b:start|0|0|0|0\nICTK|s/b:end|2|2|2|2\n",
    );
    let report = compare_benchmark_aggregates(&current.rows, &previous.rows);
    assert_eq!(report.rows.len(), 4);
    let both = report
        .rows
        .iter()
        .find(|row| row.span_label == "s/a" && !row.all_suites)
        .expect("compared");
    assert_eq!(both.current_runs, Some(1));
    assert_eq!(both.previous_runs, Some(1));
    assert_eq!(current.rows[both.current_row.unwrap()].span_label, "s/a");
    let gone = report
        .rows
        .iter()
        .find(|row| row.span_label == "s/b" && !row.all_suites)
        .expect("compared");
    assert_eq!(gone.current_runs, None);
    assert_eq!(gone.current_row, None);
    assert_eq!(gone.previous_runs, Some(1));
    assert_eq!(row(&previous, "s/b", true).runs, 1);
}

fn figures(text: &str) -> RenderedFigures {
    RenderedFigures {
        instructions: format!("{text}-i"),
        heap_bytes: format!("{text}-h"),
        memory_bytes: format!("{text}-m"),
        total_allocation: format!("{text}-t"),
    }
}

#[test]
fn csv_cells_are_quoted_where_they_have_to_be() {
    assert_eq!(csv_cell("plain"), "plain");
    assert_eq!(csv_cell("a,b"), "\"a,b\"");
    assert_eq!(csv_cell("say \"x\""), "\"say \"\"x\"\"\"");
    assert_eq!(csv_cell("two\nlines"), "\"two\nlines\"");
    assert_eq!(csv_cell("car\rriage"), "\"car\rriage\"");
    assert_eq!(csv_cell(""), "");
    assert_eq!(markdown_cell("a|b"), "a\\|b");
}

#[test]
fn tables_hold_one_line_for_each_row() {
    let parsed = parse("ICTK|s/a:start|1|2|3|4\nICTK|bad,\n");
    assert_eq!(
        raw_events_csv(&parsed.events),
        "source_line,source,prefix,suite,label,span_label,kind,instructions,heap_bytes,memory_bytes,total_allocation\n1,unknown,ICTK,s,s/a:start,s/a,start,1,2,3,4\n"
    );
    assert_eq!(
        malformed_markers_csv(&parsed.malformed_markers),
        "source_line,source,reason,line\n2,unknown,expected six pipe-separated columns,\"ICTK|bad,\"\n"
    );
    let spans = spans_of(TWO_RUNS);
    assert_eq!(
        spans_csv(&spans.spans),
        "suite,span_label,start_line,end_line,instructions_delta,heap_bytes_delta,memory_bytes_delta,total_allocation_delta\ns,s/a,1,2,2,1,4,0\ns,s/a,3,4,10,1,2,0\n"
    );
    let odd = spans_of("ICTK|a:end|1|1|1|1\nICTK|b:start|5|5|5|5\nICTK|b:end|6|4|6|6\n");
    assert_eq!(
        unpaired_markers_csv(&odd.unpaired_markers),
        "source_line,source,kind,suite,span_label,label\n1,unknown,end,a,a,a:end\n"
    );
    assert_eq!(
        invalid_spans_csv(&odd.invalid_spans),
        "start_line,end_line,suite,span_label,reason\n2,3,b,b,end counter is lower than start counter\n"
    );
    let rows = aggregates(TWO_RUNS).rows;
    let averages: Vec<RenderedFigures> = rows.iter().map(|_| figures("avg")).collect();
    let suites = aggregates_csv(&rows, &averages, false);
    assert_eq!(suites.lines().count(), 2);
    assert!(suites.ends_with("\ns,s/a,2,12,avg-i,2,avg-h,6,avg-m,0,avg-t\n"));
    assert_eq!(aggregates_csv(&rows, &averages, true).lines().count(), 2);
    assert_eq!(
        comparison_csv(&Vec::new(), &Vec::new()),
        "suite,span_label,current_runs,previous_runs,instructions_avg_change_percent,heap_bytes_avg_change_percent,memory_bytes_avg_change_percent,total_allocation_avg_change_percent\n"
    );
}

#[test]
fn the_summary_shows_changes_and_new_spans() {
    let current = aggregates(
        "ICTK|s/a:start|0|0|0|0\nICTK|s/a:end|1|1|1|1\nICTK|s/b|b:start|0|0|0|0\nICTK|s/n:start|0|0|0|0\nICTK|s/n:end|1|1|1|1\n",
    );
    let previous = aggregates("ICTK|s/a:start|0|0|0|0\nICTK|s/a:end|2|2|2|2\n");
    let comparison = compare_benchmark_aggregates(&current.rows, &previous.rows);
    let values: Vec<RenderedFigures> = current.rows.iter().map(|_| figures("v")).collect();
    let changes: Vec<RenderedChanges> = comparison
        .rows
        .iter()
        .map(|_| RenderedChanges {
            instructions: Some("-50%".to_owned()),
            heap_bytes: None,
            memory_bytes: None,
            total_allocation: None,
        })
        .collect();
    let text = benchmark_summary_markdown(&current.rows, &values, &comparison.rows, &changes);
    let lines: Vec<&str> = text.lines().collect();
    assert_eq!(lines[0], "# Benchmark Summary");
    assert_eq!(lines.len(), 6);
    assert_eq!(lines[4], "| s/a | 1 | v-i (-50%) | v-h | v-m | v-t |");
    assert_eq!(lines[5], "| s/n | 1 | v-i (new) | v-h (new) | v-m (new) | v-t (new) |");
    let alone = benchmark_summary_markdown(&current.rows, &values, &Vec::new(), &Vec::new());
    assert!(alone.contains("| s/n | 1 | v-i | v-h | v-m | v-t |\n"));
}

fn metadata() -> BenchmarkRunMetadata {
    BenchmarkRunMetadata {
        timestamp: "20260101T000000Z".to_owned(),
        run_directory_name: "20260101T000000Z-abcdef0-0001".to_owned(),
        run_index: 1,
        git_commit_hash: Some("abcdef0123".to_owned()),
        git_commit_short_hash: None,
        ic_testkit_version: "0.1.0".to_owned(),
        pocket_ic_version: "\"quoted\"\n".to_owned(),
        rustc_version: "rustc".to_owned(),
        benchmark_command: Some("cargo bench".to_owned()),
        selected_previous_run: None,
    }
}

#[test]
fn metadata_is_read_back_as_it_was_written() {
    let written = metadata_json(&metadata());
    assert!(written.ends_with("}\n"));
    assert!(written.contains("\"run_index\": 1"));
    assert!(written.contains("\"git_commit_short_hash\": null"));
    let read = read_benchmark_run_metadata(&written).expect("metadata");
    assert_eq!(format!("{read:?}"), format!("{:?}", metadata()));
}

#[test]
fn unusable_metadata_says_which_field_is_wrong() {
    let cases = [
        ("{}", "missing required metadata string field `timestamp`"),
        ("{\"timestamp\": 1}", "metadata string field `timestamp` is not a string or null"),
        (
            "{\"timestamp\": \"t\", \"run_directory_name\": null}",
            "missing required metadata string field `run_directory_name`",
        ),
        (
            "{\"timestamp\": \"t\", \"run_directory_name\": \"d\", \"run_index\": -1}",
            "missing required metadata integer field `run_index`",
        ),
        (
            "{\"timestamp\": \"t\", \"run_directory_name\": \"d\", \"run_index\": 4294967296}",
            "metadata integer field `run_index` is invalid: out of range integral type conversion attempted",
        ),
        (
            "{\"timestamp\": \"t\", \"run_directory_name\": \"d\", \"run_index\": 1, \"git_commit_hash\": []}",
            "metadata string field `git_commit_hash` is not a string or null",
        ),
    ];
    for (text, reason) in cases {
        assert_eq!(read_benchmark_run_metadata(text).expect_err("unusable"), reason);
    }
    let broken = read_benchmark_run_metadata("{").expect_err("no JSON");
    assert!(broken.starts_with("invalid benchmark metadata JSON: EOF while parsing"));
}

#[test]
fn run_directories_are_numbered_by_moment_and_commit() {
    assert_eq!(benchmark_run_directory_name("t", Some("abc"), 7), "t-abc-0007");
    assert_eq!(benchmark_run_directory_name("t", Some(""), 7), "t-unknown-0007");
    assert_eq!(benchmark_run_directory_name("t", None, 12345), "t-unknown-12345");
    assert_eq!(short_commit_hash("0123456789"), "0123456");
    assert_eq!(short_commit_hash("0123"), "0123");
    assert_eq!(run_index_from_directory_name(b"t-abc-0012", "t-abc-"), Some(12));
    assert_eq!(run_index_from_directory_name(b"t-abc-012", "t-abc-"), None);
    assert_eq!(run_index_from_directory_name(b"t-abc-00x2", "t-abc-"), None);
    assert_eq!(run_index_from_directory_name(b"u-abc-0012", "t-abc-"), None);
    let names = vec![
        b"t-0123456-0001".to_vec(),
        b"t-0123456-0003".to_vec(),
        b"t-unknown-0009".to_vec(),
        b"other".to_vec(),
    ];
    let next = next_benchmark_run_directory(b"/runs", "t", Some("0123456789"), &names);
    assert_eq!(next.run_index, 4);
    assert_eq!(next.directory_name, "t-0123456-0004");
    assert_eq!(next.path, b"/runs/t-0123456-0004".to_vec());
    assert_eq!(next.git_commit_hash.as_deref(), Some("0123456789"));
    assert_eq!(next.git_commit_short_hash.as_deref(), Some("0123456"));
    let unknown = next_benchmark_run_directory(b"runs/", "t", None, &names);
    assert_eq!(unknown.path, b"runs/t-unknown-0010".to_vec());
}

#[test]
fn the_latest_previous_run_of_the_same_command_is_chosen() {
    let run = |name: &str, timestamp: &str, command: Option<&str>| RunCandidate {
        directory_name: name.to_owned(),
        metadata: Some(BenchmarkRunMetadata {
            timestamp: timestamp.to_owned(),
            benchmark_command: command.map(str::to_owned),
            ..metadata()
        }),
    };
    let candidates = vec![
        run("a", "3", Some("x")),
        run("b", "2", Some("x")),
        run("c", "9", Some("y")),
        RunCandidate { directory_name: "d".to_owned(), metadata: None },
        run("e", "3", Some("x")),
        run("m", "9", Some("x")),
    ];
    assert_eq!(find_latest_previous_run(&candidates, "m", Some("x")), Some(4));
    assert_eq!(find_latest_previous_run(&candidates, "m", None), Some(2));
    assert_eq!(find_latest_previous_run(&candidates, "b", Some("x")), Some(0));
    assert_eq!(find_latest_previous_run(&candidates, "a", None), None);
    let tied = vec![run("c", "3", None), run("a", "3", None), run("c", "3", None)];
    assert_eq!(find_latest_previous_run(&tied, "m", None), Some(2));
    let ordered = vec![run("a", "4", None), run("c", "3", None), run("b", "4", None)];
    assert_eq!(find_latest_previous_run(&ordered, "m", None), Some(2));
}

#[test]
fn the_next_attempt_follows_the_highest_one() {
    let names = |names: &[&str]| names.iter().map(|name| name.as_bytes().to_vec()).collect();
    assert_eq!(next_run_index(&names(&["r-0002", "r-0007", "r-0004", "q-0009", "r-12"]), "r-"), 8);
    assert_eq!(next_run_index(&names(&["q-0009"]), "r-"), 1);
    assert_eq!(next_run_index(&Vec::new(), "r-"), 1);
}

#[test]
fn markers_of_other_spans_change_nothing() {
    let own = [
        "ICTK|a/x:end|1|1|1|1",
        "ICTK|a/x:start|1|1|1|1",
        "ICTK|a/x:start|2|2|2|2",
        "ICTK|a/x:end|5|5|5|5",
        "ICTK|a/x:start|9|9|9|9",
        "ICTK|a/x:end|3|3|3|3",
        "ICTK|a/x:start|4|4|4|4",
    ];
    let other = ["ICTK|b/x:start|1|1|1|1", "ICTK|a/y:end|1|1|1|1"];
    let mut mixed: Vec<&str> = Vec::new();
    for line in own {
        mixed.push(line);
        mixed.extend(other);
    }
    let (alone, all) = (spans_of(&own.join("\n")), spans_of(&mixed.join("\n")));
    let spans = |report: &BenchmarkSpanReport| -> Vec<(BenchmarkCounters, BenchmarkCounters)> {
        report
            .spans
            .iter()
            .filter(|span| span.span_label == "a/x")
            .map(|span| (span.start, span.delta))
            .collect()
    };
    let invalid = |report: &BenchmarkSpanReport| -> Vec<(BenchmarkCounters, BenchmarkCounters)> {
        report
            .invalid_spans
            .iter()
            .filter(|span| span.start.span_label == "a/x")
            .map(|span| (span.start.counters, span.end.counters))
            .collect()
    };
    let unpaired = |report: &BenchmarkSpanReport| {
        report
            .unpaired_markers
            .iter()
            .filter(|marker| marker.event.span_label == "a/x")
            .map(|marker| (marker.kind, marker.event.counters))
            .collect::<Vec<(UnpairedBenchmarkMarkerKind, BenchmarkCounters)>>()
    };
    assert_eq!(spans(&alone), [(counters(2, 2, 2, 2), counters(3, 3, 3, 3))]);
    assert_eq!(invalid(&alone), [(counters(9, 9, 9, 9), counters(3, 3, 3, 3))]);
    assert_eq!(
        unpaired(&alone),
        [
            (UnpairedBenchmarkMarkerKind::End, counters(1, 1, 1, 1)),
            (UnpairedBenchmarkMarkerKind::Start, counters(1, 1, 1, 1)),
            (UnpairedBenchmarkMarkerKind::Start, counters(4, 4, 4, 4)),
        ]
    );
    assert_eq!(spans(&all), spans(&alone));
    assert_eq!(invalid(&all), invalid(&alone));
    assert_eq!(unpaired(&all), unpaired(&alone));
}

#[test]
fn a_report_is_written_as_ten_files() {
    let parse = parse(TWO_RUNS);
    let spans = pair_benchmark_spans(&parse.events);
    let aggregates = aggregates(TWO_RUNS);
    let rows = aggregates.rows.len();
    let report = BenchmarkRunReport { parse, spans, aggregates, comparison: None, metadata: metadata() };
    let averages = |text: &str| (0..rows).map(|_| figures(text)).collect::<Vec<_>>();
    let figures = ReportFigures {
        averages: averages("avg"),
        values: averages("value"),
        change_cells: Vec::new(),
        changes: Vec::new(),
    };
    let files = write_benchmark_report_dir(&report, &figures);
    let names: Vec<&str> = files.iter().map(|file| file.name).collect();
    assert_eq!(
        names,
        [
            "raw-events.csv",
            "malformed-markers.csv",
            "spans.csv",
            "unpaired-markers.csv",
            "invalid-spans.csv",
            "suite-aggregates.csv",
            "all-aggregates.csv",
            "comparison.csv",
            "bench-summary.md",
            "metadata.json",
        ]
    );
    assert_eq!(files[9].contents, metadata_json(&metadata()));
    assert!(files[8].contents.ends_with("| s/a | 2 | value-i | value-h | value-m | value-t |\n"));
    assert_eq!(files[0].contents.lines().count(), 5);
}

#[test]
fn canister_counters_are_measured_in_bytes() {
    let measured = Performance::counters(5, 2, 3);
    assert_eq!(measured, counters(5, 131_072, 196_608, 0));
    assert_eq!(
        Performance::measure("a/b:start", measured),
        "ICTK|a/b:start|5|131072|196608|0"
    );
    assert_eq!(
        Performance::counters(u64::MAX, u64::MAX, 0).heap_bytes,
        18_446_744_073_709_551_615 * 65_536
    );
}

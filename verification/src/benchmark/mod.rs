//! Benchmark markers in logs: parsing, pairing, aggregation, comparison and reports.

pub mod markers;
pub mod marker_laws;
pub mod spans;
pub mod span_laws;
pub mod aggregate;
pub mod aggregate_laws;
pub mod compare;
pub mod laws;
pub mod report;
pub mod report_laws;
pub mod runs;
pub mod run_laws;

pub use aggregate::{
    aggregate_benchmark_spans, try_aggregate_benchmark_spans, BenchmarkAggregateReport,
    BenchmarkAggregateRow,
};
pub use compare::{
    compare_benchmark_aggregates, BenchmarkComparisonReport, BenchmarkComparisonRow,
};
pub use markers::{
    format_marker, parse_benchmark_events, parse_benchmark_events_from_captured_output,
    parse_benchmark_events_from_source, BenchmarkCounters, BenchmarkEventKind,
    BenchmarkEventSource, BenchmarkParseReport, BenchmarkParserConfig, MalformedBenchmarkMarker,
    RawBenchmarkEvent, SuiteDerivation, DEFAULT_PREFIX,
};
pub use report::{write_benchmark_report_dir, BenchmarkRunReport};
pub use runs::{
    benchmark_run_directory_name, find_latest_previous_run, next_benchmark_run_directory,
    read_benchmark_run_metadata, short_commit_hash, BenchmarkRunDirectory, BenchmarkRunMetadata,
};
pub use spans::{
    pair_benchmark_spans, BenchmarkSpan, BenchmarkSpanReport, InvalidBenchmarkSpan,
    UnpairedBenchmarkMarker, UnpairedBenchmarkMarkerKind,
};

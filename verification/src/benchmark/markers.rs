//! Marker lines and how they are read out of logs.

use vstd::prelude::*;
use vstd::string::*;
use crate::text::{
    chars_of, decimal, decimal_text, decimal_value, has_prefix, is_digit, lemma_decimal_digits,
    lemma_decimal_round_trip, parse_decimal, text_equal, text_of, texts,
};

verus! {

/// Prefix of the markers that canister code emits.
pub const DEFAULT_PREFIX: &'static str = "ICTK";

/// How the suite of a span is derived from its label.
#[derive(Clone, Debug)]
pub enum SuiteDerivation {
    /// The part of the label before its first slash.
    FirstPathSegment,
    /// Always the same suite.
    Fixed(String),
}

/// What a suite derivation says.
pub enum DerivationView {
    /// The part of the label before its first slash.
    FirstPathSegment,
    /// Always the same suite.
    Fixed(Seq<char>),
}

impl View for SuiteDerivation {
    type V = DerivationView;

    open spec fn view(&self) -> DerivationView {
        match self {
            SuiteDerivation::FirstPathSegment => DerivationView::FirstPathSegment,
            SuiteDerivation::Fixed(suite) => DerivationView::Fixed(suite@),
        }
    }
}

/// Position of the first `character`, from `from` on, or the end of the text.
pub open spec fn position_of(text: Seq<char>, character: char, from: int) -> int
    decreases text.len() - from,
{
    if from < 0 || from >= text.len() || text[from] == character {
        from
    } else {
        position_of(text, character, from + 1)
    }
}

/// The suite of a span: the first segment of its label, or the whole label when that is empty.
pub open spec fn suite_of(derivation: DerivationView, span_label: Seq<char>) -> Seq<char> {
    match derivation {
        DerivationView::FirstPathSegment => {
            let end = position_of(span_label, '/', 0);
            if end > 0 {
                span_label.take(end)
            } else {
                span_label
            }
        },
        DerivationView::Fixed(suite) => suite,
    }
}

impl SuiteDerivation {
    /// The suite of a span.
    pub fn derive_suite(&self, span_label: &str) -> (suite: String)
        ensures
            suite@ == suite_of(self@, span_label@),
    {
        match self {
            SuiteDerivation::Fixed(suite) => suite.clone(),
            SuiteDerivation::FirstPathSegment => {
                let label = chars_of(span_label);
                let mut end: usize = 0;
                while end < label.len() && label[end] != '/'
                    invariant
                        end <= label@.len(),
                        position_of(label@, '/', 0) == position_of(label@, '/', end as int),
                    decreases label.len() - end,
                {
                    end = end + 1;
                }
                if end == 0 {
                    return text_of(label.as_slice());
                }
                let segment = vstd::slice::slice_subrange(label.as_slice(), 0, end);
                assert(segment@ =~= span_label@.take(end as int));
                text_of(segment)
            },
        }
    }
}

/// How logs are read.
#[derive(Clone, Debug)]
pub struct BenchmarkParserConfig {
    /// Accepted marker prefixes.
    pub prefixes: Vec<String>,
    /// How the suite of a span is derived.
    pub suite_derivation: SuiteDerivation,
    /// When enabled, non-empty lines without a configured marker prefix are
    /// reported as malformed markers instead of ignored log noise.
    pub strict: bool,
}

/// What a parser configuration says.
pub struct ConfigView {
    /// Accepted marker prefixes.
    pub prefixes: Seq<Seq<char>>,
    /// How the suite of a span is derived.
    pub suite_derivation: DerivationView,
    /// Whether lines without a prefix are malformed.
    pub strict: bool,
}

impl View for BenchmarkParserConfig {
    type V = ConfigView;

    open spec fn view(&self) -> ConfigView {
        ConfigView {
            prefixes: texts(self.prefixes@),
            suite_derivation: self.suite_derivation@,
            strict: self.strict,
        }
    }
}

impl Default for BenchmarkParserConfig {
    fn default() -> (config: Self)
        ensures
            config@.prefixes == seq![DEFAULT_PREFIX@],
            config@.suite_derivation is FirstPathSegment,
            !config@.strict,
    {
        let mut prefixes: Vec<String> = Vec::new();
        prefixes.push(DEFAULT_PREFIX.to_owned());
        assert(texts(prefixes@) =~= seq![DEFAULT_PREFIX@]);
        BenchmarkParserConfig {
            prefixes,
            suite_derivation: SuiteDerivation::FirstPathSegment,
            strict: false,
        }
    }
}

/// Whether a marker opens or closes a span.
#[derive(Clone, Copy, Debug, PartialEq, Eq, Structural)]
pub enum BenchmarkEventKind {
    /// The span starts.
    Start,
    /// The span ends.
    End,
}

/// Where a marker was read.
#[derive(Clone, Copy, Debug, PartialEq, Eq, Structural)]
pub enum BenchmarkEventSource {
    /// Nothing is known.
    Unknown,
    /// Standard output of a process.
    Stdout,
    /// Standard error of a process.
    Stderr,
    /// Log fetched from a canister.
    FetchedLog,
}

/// Name of a source.
pub open spec fn source_text(source: BenchmarkEventSource) -> Seq<char> {
    match source {
        BenchmarkEventSource::Unknown => "unknown"@,
        BenchmarkEventSource::Stdout => "stdout"@,
        BenchmarkEventSource::Stderr => "stderr"@,
        BenchmarkEventSource::FetchedLog => "fetched_log"@,
    }
}

impl BenchmarkEventSource {
    /// Name of the source.
    pub fn as_str(self) -> (text: &'static str)
        ensures
            text@ == source_text(self),
    {
        match self {
            BenchmarkEventSource::Unknown => "unknown",
            BenchmarkEventSource::Stdout => "stdout",
            BenchmarkEventSource::Stderr => "stderr",
            BenchmarkEventSource::FetchedLog => "fetched_log",
        }
    }
}

/// Resources that a marker reports.
#[derive(Clone, Copy, Debug, PartialEq, Eq, Structural)]
pub struct BenchmarkCounters {
    /// Executed instructions.
    pub instructions: u128,
    /// Size of the heap.
    pub heap_bytes: u128,
    /// Size of stable memory.
    pub memory_bytes: u128,
    /// Bytes allocated in total.
    pub total_allocation: u128,
}

impl Default for BenchmarkCounters {
    fn default() -> (counters: Self)
        ensures
            counters == (BenchmarkCounters {
                instructions: 0,
                heap_bytes: 0,
                memory_bytes: 0,
                total_allocation: 0,
            }),
    {
        BenchmarkCounters { instructions: 0, heap_bytes: 0, memory_bytes: 0, total_allocation: 0 }
    }
}

/// One marker read out of a log.
#[derive(Clone, Debug)]
pub struct RawBenchmarkEvent {
    /// Prefix of the marker.
    pub prefix: String,
    /// Label as it was written.
    pub label: String,
    /// Suite of the span.
    pub suite: String,
    /// Label of the span.
    pub span_label: String,
    /// Whether the span starts or ends.
    pub kind: BenchmarkEventKind,
    /// Reported resources.
    pub counters: BenchmarkCounters,
    /// Line of the log, counted from one.
    pub source_line: usize,
    /// Where the marker was read.
    pub source: BenchmarkEventSource,
}

/// What a marker says.
pub struct EventView {
    /// Prefix of the marker.
    pub prefix: Seq<char>,
    /// Label as it was written.
    pub label: Seq<char>,
    /// Suite of the span.
    pub suite: Seq<char>,
    /// Label of the span.
    pub span_label: Seq<char>,
    /// Whether the span starts or ends.
    pub kind: BenchmarkEventKind,
    /// Reported resources.
    pub counters: BenchmarkCounters,
    /// Line of the log, counted from one.
    pub source_line: int,
    /// Where the marker was read.
    pub source: BenchmarkEventSource,
}

impl View for RawBenchmarkEvent {
    type V = EventView;

    open spec fn view(&self) -> EventView {
        EventView {
            prefix: self.prefix@,
            label: self.label@,
            suite: self.suite@,
            span_label: self.span_label@,
            kind: self.kind,
            counters: self.counters,
            source_line: self.source_line as int,
            source: self.source,
        }
    }
}

impl RawBenchmarkEvent {
    /// A marker that says the same.
    pub fn duplicate(&self) -> (copy: Self)
        ensures
            copy@ == self@,
    {
        RawBenchmarkEvent {
            prefix: self.prefix.clone(),
            label: self.label.clone(),
            suite: self.suite.clone(),
            span_label: self.span_label.clone(),
            kind: self.kind,
            counters: self.counters,
            source_line: self.source_line,
            source: self.source,
        }
    }
}

/// Views of a list of markers.
pub open spec fn event_views(events: Seq<RawBenchmarkEvent>) -> Seq<EventView> {
    events.map_values(|event: RawBenchmarkEvent| event@)
}

/// A line that should have been a marker and is none.
#[derive(Clone, Debug)]
pub struct MalformedBenchmarkMarker {
    /// Line of the log, counted from one.
    pub source_line: usize,
    /// Where the line was read.
    pub source: BenchmarkEventSource,
    /// The line itself.
    pub line: String,
    /// What is wrong with it.
    pub reason: String,
}

/// What a malformed marker says.
pub struct MalformedView {
    /// Line of the log, counted from one.
    pub source_line: int,
    /// Where the line was read.
    pub source: BenchmarkEventSource,
    /// The line itself.
    pub line: Seq<char>,
    /// What is wrong with it.
    pub reason: Seq<char>,
}

impl View for MalformedBenchmarkMarker {
    type V = MalformedView;

    open spec fn view(&self) -> MalformedView {
        MalformedView {
            source_line: self.source_line as int,
            source: self.source,
            line: self.line@,
            reason: self.reason@,
        }
    }
}

/// Views of a list of malformed markers.
pub open spec fn malformed_views(markers: Seq<MalformedBenchmarkMarker>) -> Seq<MalformedView> {
    markers.map_values(|marker: MalformedBenchmarkMarker| marker@)
}

/// Everything read out of a log.
#[derive(Clone, Debug)]
pub struct BenchmarkParseReport {
    /// Markers, in order.
    pub events: Vec<RawBenchmarkEvent>,
    /// Malformed markers, in order.
    pub malformed_markers: Vec<MalformedBenchmarkMarker>,
    /// Number of lines that are no markers.
    pub ignored_line_count: usize,
}

/// What was read out of a log.
#[verifier::ext_equal]
pub struct ParseView {
    /// Markers, in order.
    pub events: Seq<EventView>,
    /// Malformed markers, in order.
    pub malformed_markers: Seq<MalformedView>,
    /// Number of lines that are no markers.
    pub ignored_line_count: nat,
}

impl View for BenchmarkParseReport {
    type V = ParseView;

    open spec fn view(&self) -> ParseView {
        ParseView {
            events: event_views(self.events@),
            malformed_markers: malformed_views(self.malformed_markers@),
            ignored_line_count: self.ignored_line_count as nat,
        }
    }
}

impl Default for BenchmarkParseReport {
    fn default() -> (report: Self)
        ensures
            report@ == (ParseView {
                events: seq![],
                malformed_markers: seq![],
                ignored_line_count: 0,
            }),
    {
        let report = BenchmarkParseReport {
            events: Vec::new(),
            malformed_markers: Vec::new(),
            ignored_line_count: 0,
        };
        assert(report@.events =~= seq![]);
        assert(report@.malformed_markers =~= seq![]);
        report
    }
}

/// The line of a marker.
pub open spec fn marker_text(
    prefix: Seq<char>,
    label: Seq<char>,
    counters: BenchmarkCounters,
) -> Seq<char> {
    prefix + "|"@ + label + "|"@ + decimal(counters.instructions as nat) + "|"@ + decimal(
        counters.heap_bytes as nat,
    ) + "|"@ + decimal(counters.memory_bytes as nat) + "|"@ + decimal(
        counters.total_allocation as nat,
    )
}

/// The line of a marker.
pub fn format_marker(prefix: &str, label: &str, counters: BenchmarkCounters) -> (line: String)
    ensures
        line@ == marker_text(prefix@, label@, counters),
{
    let mut line = prefix.to_owned();
    line.append("|");
    line.append(label);
    line.append("|");
    line.append(decimal_text(counters.instructions).as_str());
    line.append("|");
    line.append(decimal_text(counters.heap_bytes).as_str());
    line.append("|");
    line.append(decimal_text(counters.memory_bytes).as_str());
    line.append("|");
    line.append(decimal_text(counters.total_allocation).as_str());
    line
}

/// The pieces of a text between separators; there is always one.
pub open spec fn pieces(text: Seq<char>, separator: char) -> Seq<Seq<char>>
    decreases text.len(),
{
    if text.len() == 0 {
        seq![Seq::<char>::empty()]
    } else {
        let before = pieces(text.drop_last(), separator);
        if text.last() == separator {
            before.push(Seq::<char>::empty())
        } else {
            before.drop_last().push(before.last().push(text.last()))
        }
    }
}

proof fn lemma_pieces_nonempty(text: Seq<char>, separator: char)
    ensures
        pieces(text, separator).len() > 0,
    decreases text.len(),
{
    if text.len() > 0 {
        lemma_pieces_nonempty(text.drop_last(), separator);
    }
}

/// The pieces of a text between separators.
pub fn split_text(text: &str, separator: char) -> (found: Vec<String>)
    ensures
        texts(found@) == pieces(text@, separator),
        found@.len() > 0,
{
    let chars = chars_of(text);
    let mut found: Vec<String> = Vec::new();
    let mut current = String::new();
    let mut at: usize = 0;
    assert(texts(found@).push(current@) =~= pieces(chars@.take(0), separator));
    while at < chars.len()
        invariant
            at <= chars@.len(),
            texts(found@).push(current@) == pieces(chars@.take(at as int), separator),
        decreases chars.len() - at,
    {
        let character = chars[at];
        let ghost before = texts(found@);
        let ghost piece = current@;
        proof {
            let next = chars@.take(at + 1);
            assert(next.drop_last() =~= chars@.take(at as int));
            assert(next.last() == character);
        }
        if character == separator {
            found.push(current);
            current = String::new();
            assert(texts(found@) =~= before.push(piece));
            assert(current@ =~= Seq::<char>::empty());
        } else {
            current.push(character);
            assert(before.push(piece).drop_last() =~= before);
        }
        at = at + 1;
    }
    assert(chars@.take(at as int) =~= text@);
    let ghost before = texts(found@);
    let ghost last = current@;
    found.push(current);
    assert(texts(found@) =~= before.push(last));
    found
}

/// A line without the carriage return before its line feed.
pub open spec fn without_return(line: Seq<char>) -> Seq<char> {
    if line.len() > 0 && line.last() == '\r' {
        line.drop_last()
    } else {
        line
    }
}

/// The lines of a text; a line feed ends a line, and the last line needs none.
pub open spec fn lines_of(text: Seq<char>) -> Seq<Seq<char>> {
    let all = pieces(text, '\n');
    let ended = all.drop_last().map_values(|line: Seq<char>| without_return(line));
    if all.last().len() == 0 {
        ended
    } else {
        ended.push(all.last())
    }
}

/// The lines of a text.
pub fn split_lines(text: &str) -> (lines: Vec<String>)
    ensures
        texts(lines@) == lines_of(text@),
{
    let mut found = split_text(text, '\n');
    let ghost all = pieces(text@, '\n');
    let ghost ended = all.drop_last().map_values(|line: Seq<char>| without_return(line));
    let last = found.pop();
    assert(texts(found@) =~= all.drop_last());
    let mut lines: Vec<String> = Vec::new();
    let mut at: usize = 0;
    while at < found.len()
        invariant
            at <= found@.len(),
            texts(found@) == all.drop_last(),
            ended == all.drop_last().map_values(|line: Seq<char>| without_return(line)),
            texts(lines@) == ended.take(at as int),
        decreases found.len() - at,
    {
        let ghost before = texts(lines@);
        let chars = chars_of(found[at].as_str());
        assert(all.drop_last()[at as int] == found@[at as int]@);
        if chars.len() > 0 && chars[chars.len() - 1] == '\r' {
            let kept = vstd::slice::slice_subrange(chars.as_slice(), 0, chars.len() - 1);
            assert(kept@ =~= chars@.drop_last());
            lines.push(text_of(kept));
        } else {
            lines.push(text_of(chars.as_slice()));
        }
        proof {
            assert(texts(lines@) =~= before.push(ended[at as int]));
            assert(ended.take(at + 1) =~= ended.take(at as int).push(ended[at as int]));
        }
        at = at + 1;
    }
    assert(ended.take(at as int) =~= ended);
    match last {
        Some(line) => {
            assert(line@ == all.last());
            if !line.as_str().is_empty() {
                lines.push(line);
                assert(texts(lines@) =~= ended.push(line@));
            }
        },
        None => {},
    }
    lines
}

/// Whether a character is white space in the sense of the Unicode property of that name.
pub open spec fn is_white_space(character: char) -> bool {
    let code = character as u32;
    ||| 0x9 <= code <= 0xd
    ||| code == 0x20
    ||| code == 0x85
    ||| code == 0xa0
    ||| code == 0x1680
    ||| 0x2000 <= code <= 0x200a
    ||| code == 0x2028
    ||| code == 0x2029
    ||| code == 0x202f
    ||| code == 0x205f
    ||| code == 0x3000
}

/// Whether a line holds white space only.
pub open spec fn is_blank(line: Seq<char>) -> bool {
    forall|i: int| 0 <= i < line.len() ==> is_white_space(#[trigger] line[i])
}

fn blank(line: &str) -> (blank: bool)
    ensures
        blank == is_blank(line@),
{
    let chars = chars_of(line);
    let mut at: usize = 0;
    while at < chars.len()
        invariant
            at <= chars@.len(),
            chars@ == line@,
            forall|i: int| 0 <= i < at ==> is_white_space(#[trigger] chars@[i]),
        decreases chars.len() - at,
    {
        let code = chars[at] as u32;
        if !((code >= 0x9 && code <= 0xd) || code == 0x20 || code == 0x85 || code == 0xa0 || code
            == 0x1680 || (code >= 0x2000 && code <= 0x200a) || code == 0x2028 || code == 0x2029
            || code == 0x202f || code == 0x205f || code == 0x3000) {
            assert(!is_white_space(chars@[at as int]));
            return false;
        }
        at = at + 1;
    }
    true
}

/// Whether a line starts with a configured prefix and a bar.
pub open spec fn is_prefixed(line: Seq<char>, prefixes: Seq<Seq<char>>) -> bool {
    exists|i: int|
        0 <= i < prefixes.len() && ((#[trigger] prefixes[i]) + seq!['|']).is_prefix_of(line)
}

fn has_configured_prefix(line: &str, prefixes: &Vec<String>) -> (prefixed: bool)
    ensures
        prefixed == is_prefixed(line@, texts(prefixes@)),
{
    let ghost all = texts(prefixes@);
    let mut at: usize = 0;
    while at < prefixes.len()
        invariant
            at <= prefixes@.len(),
            all == texts(prefixes@),
            forall|i: int|
                0 <= i < at ==> !((#[trigger] all[i]) + seq!['|']).is_prefix_of(line@),
        decreases prefixes.len() - at,
    {
        let mut start = prefixes[at].clone();
        start.push('|');
        assert(start@ =~= all[at as int] + seq!['|']);
        if has_prefix(line, start.as_str()) {
            return true;
        }
        at = at + 1;
    }
    false
}

/// The label of a span and whether it starts or ends, out of the label of a marker.
pub open spec fn label_kind(label: Seq<char>) -> Option<(Seq<char>, BenchmarkEventKind)> {
    let length = label.len() as int;
    if length > 6 && label.skip(length - 6) == ":start"@ {
        Some((label.take(length - 6), BenchmarkEventKind::Start))
    } else if length > 4 && label.skip(length - 4) == ":end"@ {
        Some((label.take(length - 4), BenchmarkEventKind::End))
    } else {
        None
    }
}

fn without_suffix(label: &Vec<char>, suffix: &str) -> (stem: Option<String>)
    ensures
        match stem {
            Some(found) => {
                &&& suffix@.len() < label@.len()
                &&& label@.skip(label@.len() - suffix@.len()) == suffix@
                &&& found@ == label@.take(label@.len() - suffix@.len())
            },
            None => !(suffix@.len() < label@.len() && label@.skip(label@.len() - suffix@.len())
                == suffix@),
        },
{
    let ending = chars_of(suffix);
    if ending.len() >= label.len() {
        return None;
    }
    let start = label.len() - ending.len();
    let mut at: usize = 0;
    while at < ending.len()
        invariant
            at <= ending@.len(),
            ending@ == suffix@,
            start == label@.len() - ending@.len(),
            forall|i: int| 0 <= i < at ==> label@[start + i] == #[trigger] ending@[i],
        decreases ending.len() - at,
    {
        assert(start + at < label.len());
        if label[start + at] != ending[at] {
            assert(label@.skip(start as int)[at as int] == label@[start + at]);
            return None;
        }
        at = at + 1;
    }
    assert(label@.skip(start as int) =~= ending@);
    let stem = vstd::slice::slice_subrange(label.as_slice(), 0, start);
    assert(stem@ =~= label@.take(start as int));
    Some(text_of(stem))
}

fn split_label_kind(label: &str) -> (result: Option<(String, BenchmarkEventKind)>)
    ensures
        match (result, label_kind(label@)) {
            (Some((stem, kind)), Some(expected)) => stem@ == expected.0 && kind == expected.1,
            (None, None) => true,
            _ => false,
        },
{
    proof {
        reveal_strlit(":start");
        reveal_strlit(":end");
    }
    let chars = chars_of(label);
    match without_suffix(&chars, ":start") {
        Some(stem) => Some((stem, BenchmarkEventKind::Start)),
        None => match without_suffix(&chars, ":end") {
            Some(stem) => Some((stem, BenchmarkEventKind::End)),
            None => None,
        },
    }
}

/// The number in a counter column, if it is one.
pub open spec fn counter_value(column: Seq<char>) -> Option<nat> {
    match decimal_value(column) {
        Some(value) => if value <= u128::MAX {
            Some(value)
        } else {
            None
        },
        None => None,
    }
}

/// What is wrong with a counter column.
pub open spec fn counter_complaint(column: Seq<char>, name: Seq<char>) -> Option<Seq<char>> {
    if column.len() == 0 {
        Some(name + " counter is empty"@)
    } else if counter_value(column) is None {
        Some(name + " counter is not an unsigned integer"@)
    } else {
        None
    }
}

/// The first complaint about the counter columns of a marker.
pub open spec fn counters_complaint(columns: Seq<Seq<char>>) -> Option<Seq<char>> {
    if counter_complaint(columns[2], "instructions"@) is Some {
        counter_complaint(columns[2], "instructions"@)
    } else if counter_complaint(columns[3], "heap_bytes"@) is Some {
        counter_complaint(columns[3], "heap_bytes"@)
    } else if counter_complaint(columns[4], "memory_bytes"@) is Some {
        counter_complaint(columns[4], "memory_bytes"@)
    } else {
        counter_complaint(columns[5], "total_allocation"@)
    }
}

/// What is wrong with a line that should be a marker.
pub open spec fn marker_complaint(line: Seq<char>, config: ConfigView) -> Option<Seq<char>> {
    let columns = pieces(line, '|');
    if columns.len() != 6 {
        Some("expected six pipe-separated columns"@)
    } else if !config.prefixes.contains(columns[0]) {
        Some("prefix is not configured"@)
    } else if columns[1].len() == 0 {
        Some("label is empty"@)
    } else if label_kind(columns[1]) is None {
        Some("label must end in :start or :end"@)
    } else {
        counters_complaint(columns)
    }
}

/// The counters of a well-formed marker.
pub open spec fn counters_of(columns: Seq<Seq<char>>) -> BenchmarkCounters {
    BenchmarkCounters {
        instructions: counter_value(columns[2])->0 as u128,
        heap_bytes: counter_value(columns[3])->0 as u128,
        memory_bytes: counter_value(columns[4])->0 as u128,
        total_allocation: counter_value(columns[5])->0 as u128,
    }
}

/// The marker in a well-formed line.
pub open spec fn marker_of(
    line: Seq<char>,
    source_line: int,
    source: BenchmarkEventSource,
    config: ConfigView,
) -> EventView {
    let columns = pieces(line, '|');
    let (span_label, kind) = label_kind(columns[1])->0;
    EventView {
        prefix: columns[0],
        label: columns[1],
        suite: suite_of(config.suite_derivation, span_label),
        span_label,
        kind,
        counters: counters_of(columns),
        source_line,
        source,
    }
}

/// A line that should have been a marker, with what is wrong with it.
pub open spec fn malformed_of(
    line: Seq<char>,
    source_line: int,
    source: BenchmarkEventSource,
    reason: Seq<char>,
) -> MalformedView {
    MalformedView { source_line, source, line, reason }
}

fn malformed(source_line: usize, source: BenchmarkEventSource, line: &str, reason: &str) -> (marker:
    MalformedBenchmarkMarker)
    ensures
        marker@ == malformed_of(line@, source_line as int, source, reason@),
{
    MalformedBenchmarkMarker {
        source_line,
        source,
        line: line.to_owned(),
        reason: reason.to_owned(),
    }
}

fn parse_counter(column: &str, name: &str) -> (result: Result<u128, String>)
    ensures
        match (result, counter_complaint(column@, name@)) {
            (Ok(value), None) => counter_value(column@) == Some(value as nat),
            (Err(reason), Some(expected)) => reason@ == expected,
            _ => false,
        },
{
    if column.is_empty() {
        let mut reason = name.to_owned();
        reason.append(" counter is empty");
        return Err(reason);
    }
    let chars = chars_of(column);
    match parse_decimal(chars.as_slice(), u128::MAX) {
        Some(value) => Ok(value),
        None => {
            let mut reason = name.to_owned();
            reason.append(" counter is not an unsigned integer");
            Err(reason)
        },
    }
}

fn parse_counters(columns: &Vec<String>) -> (result: Result<BenchmarkCounters, String>)
    requires
        columns@.len() == 6,
    ensures
        match (result, counters_complaint(texts(columns@))) {
            (Ok(counters), None) => counters == counters_of(texts(columns@)),
            (Err(reason), Some(expected)) => reason@ == expected,
            _ => false,
        },
{
    let ghost all = texts(columns@);
    assert(all[2] == columns@[2]@ && all[3] == columns@[3]@ && all[4] == columns@[4]@ && all[5]
        == columns@[5]@);
    let instructions = parse_counter(columns[2].as_str(), "instructions")?;
    let heap_bytes = parse_counter(columns[3].as_str(), "heap_bytes")?;
    let memory_bytes = parse_counter(columns[4].as_str(), "memory_bytes")?;
    let total_allocation = parse_counter(columns[5].as_str(), "total_allocation")?;
    Ok(BenchmarkCounters { instructions, heap_bytes, memory_bytes, total_allocation })
}

fn is_configured(prefix: &str, prefixes: &Vec<String>) -> (found: bool)
    ensures
        found == texts(prefixes@).contains(prefix@),
{
    let ghost all = texts(prefixes@);
    let mut at: usize = 0;
    while at < prefixes.len()
        invariant
            at <= prefixes@.len(),
            all == texts(prefixes@),
            forall|i: int| 0 <= i < at ==> #[trigger] all[i] != prefix@,
        decreases prefixes.len() - at,
    {
        assert(all[at as int] == prefixes@[at as int]@);
        if text_equal(prefixes[at].as_str(), prefix) {
            return true;
        }
        at = at + 1;
    }
    false
}

/// Read one line that starts with a configured prefix.
pub fn parse_marker_line(
    line: &str,
    source_line: usize,
    source: BenchmarkEventSource,
    config: &BenchmarkParserConfig,
) -> (result: Result<RawBenchmarkEvent, MalformedBenchmarkMarker>)
    ensures
        match (result, marker_complaint(line@, config@)) {
            (Ok(event), None) => event@ == marker_of(
                line@,
                source_line as int,
                source,
                config@,
            ),
            (Err(marker), Some(reason)) => marker@ == malformed_of(
                line@,
                source_line as int,
                source,
                reason,
            ),
            _ => false,
        },
{
    let columns = split_text(line, '|');
    let ghost all = pieces(line@, '|');
    assert(all.len() == columns@.len());
    if columns.len() != 6 {
        return Err(malformed(source_line, source, line, "expected six pipe-separated columns"));
    }
    assert(all[0] == columns@[0]@ && all[1] == columns@[1]@);
    if !is_configured(columns[0].as_str(), &config.prefixes) {
        return Err(malformed(source_line, source, line, "prefix is not configured"));
    }
    if columns[1].as_str().is_empty() {
        return Err(malformed(source_line, source, line, "label is empty"));
    }
    let (span_label, kind) = match split_label_kind(columns[1].as_str()) {
        Some(found) => found,
        None => {
            return Err(malformed(source_line, source, line, "label must end in :start or :end"));
        },
    };
    match parse_counters(&columns) {
        Err(reason) => Err(malformed(source_line, source, line, reason.as_str())),
        Ok(counters) => Ok(
            RawBenchmarkEvent {
                prefix: columns[0].clone(),
                label: columns[1].clone(),
                suite: config.suite_derivation.derive_suite(span_label.as_str()),
                span_label,
                kind,
                counters,
                source_line,
                source,
            },
        ),
    }
}

/// What was read after one more line.
pub open spec fn with_line(
    report: ParseView,
    line: Seq<char>,
    source_line: int,
    source: BenchmarkEventSource,
    config: ConfigView,
) -> ParseView {
    if !is_prefixed(line, config.prefixes) {
        if config.strict && !is_blank(line) {
            ParseView {
                malformed_markers: report.malformed_markers.push(
                    malformed_of(
                        line,
                        source_line,
                        source,
                        "line does not use a configured marker prefix"@,
                    ),
                ),
                ..report
            }
        } else {
            ParseView { ignored_line_count: report.ignored_line_count + 1, ..report }
        }
    } else {
        match marker_complaint(line, config) {
            None => ParseView {
                events: report.events.push(marker_of(line, source_line, source, config)),
                ..report
            },
            Some(reason) => ParseView {
                malformed_markers: report.malformed_markers.push(
                    malformed_of(line, source_line, source, reason),
                ),
                ..report
            },
        }
    }
}

/// What is read out of a list of lines.
pub open spec fn parsed(
    lines: Seq<Seq<char>>,
    source: BenchmarkEventSource,
    config: ConfigView,
) -> ParseView
    decreases lines.len(),
{
    if lines.len() == 0 {
        ParseView { events: seq![], malformed_markers: seq![], ignored_line_count: 0 }
    } else {
        with_line(
            parsed(lines.drop_last(), source, config),
            lines.last(),
            lines.len() as int,
            source,
            config,
        )
    }
}

/// Every line of a log is a marker, a malformed marker or noise, and counts once.
pub proof fn lemma_every_line_counts(
    lines: Seq<Seq<char>>,
    source: BenchmarkEventSource,
    config: ConfigView,
)
    ensures
        ({
            let report = parsed(lines, source, config);
            report.events.len() + report.malformed_markers.len() + report.ignored_line_count
                == lines.len()
        }),
    decreases lines.len(),
{
    if lines.len() > 0 {
        lemma_every_line_counts(lines.drop_last(), source, config);
    }
}

/// Read the markers of a log whose origin is not known.
pub fn parse_benchmark_events(input: &str, config: &BenchmarkParserConfig) -> (report:
    BenchmarkParseReport)
    ensures
        report@ == parsed(lines_of(input@), BenchmarkEventSource::Unknown, config@),
{
    parse_benchmark_events_from_source(input, config, BenchmarkEventSource::Unknown)
}

/// Read the markers of a log.
pub fn parse_benchmark_events_from_source(
    input: &str,
    config: &BenchmarkParserConfig,
    source: BenchmarkEventSource,
) -> (report: BenchmarkParseReport)
    ensures
        report@ == parsed(lines_of(input@), source, config@),
{
    let lines = split_lines(input);
    let end = lines.len();
    assert(texts(lines@).subrange(0, end as int) =~= lines_of(input@));
    parse_lines(&lines, 0, end, source, config)
}

/// Read the markers of the lines from `from` up to `upto`, which are numbered from one.
fn parse_lines(
    lines: &Vec<String>,
    from: usize,
    upto: usize,
    source: BenchmarkEventSource,
    config: &BenchmarkParserConfig,
) -> (report: BenchmarkParseReport)
    requires
        from <= upto <= lines@.len(),
    ensures
        report@ == parsed(texts(lines@).subrange(from as int, upto as int), source, config@),
{
    let count = upto - from;
    let ghost all = texts(lines@).subrange(from as int, upto as int);
    let mut report = BenchmarkParseReport::default();
    let mut at: usize = 0;
    assert(report@ =~= parsed(all.take(0), source, config@));
    while at < count
        invariant
            at <= count,
            from + count == upto,
            upto <= lines@.len(),
            all == texts(lines@).subrange(from as int, upto as int),
            report@ == parsed(all.take(at as int), source, config@),
        decreases count - at,
    {
        let line = lines[from + at].as_str();
        let ghost before = report@;
        let source_line = at + 1;
        proof {
            lemma_every_line_counts(all.take(at as int), source, config@);
            assert(all.take(at + 1).drop_last() =~= all.take(at as int));
            assert(all.take(at + 1).last() == line@);
        }
        if !has_configured_prefix(line, &config.prefixes) {
            if config.strict && !blank(line) {
                report.malformed_markers.push(
                    malformed(
                        source_line,
                        source,
                        line,
                        "line does not use a configured marker prefix",
                    ),
                );
            } else {
                report.ignored_line_count = report.ignored_line_count + 1;
            }
        } else {
            match parse_marker_line(line, source_line, source, config) {
                Ok(event) => {
                    report.events.push(event);
                },
                Err(marker) => {
                    report.malformed_markers.push(marker);
                },
            }
        }
        assert(report@ =~= with_line(before, line@, source_line as int, source, config@));
        at = at + 1;
    }
    assert(all.take(at as int) =~= all);
    report
}

/// Read separately captured standard output and standard error.
///
/// Separate streams do not carry global ordering, so events are returned in
/// stdout-then-stderr order. A span that starts on one stream and ends on the
/// other needs combined output and [`parse_benchmark_events`].
pub fn parse_benchmark_events_from_captured_output(
    stdout: &str,
    stderr: &str,
    config: &BenchmarkParserConfig,
) -> (report: BenchmarkParseReport)
    ensures
        ({
            let first = parsed(lines_of(stdout@), BenchmarkEventSource::Stdout, config@);
            let second = parsed(lines_of(stderr@), BenchmarkEventSource::Stderr, config@);
            report@ == ParseView {
                events: first.events + second.events,
                malformed_markers: first.malformed_markers + second.malformed_markers,
                ignored_line_count: first.ignored_line_count + second.ignored_line_count,
            }
        }),
{
    let ghost (first_lines, second_lines) = (lines_of(stdout@), lines_of(stderr@));
    let mut lines = split_lines(stdout);
    let middle = lines.len();
    let mut rest = split_lines(stderr);
    let ghost (kept, added) = (lines@, rest@);
    lines.append(&mut rest);
    proof {
        assert(texts(kept).len() == kept.len() && texts(added).len() == added.len());
        assert(texts(lines@).subrange(0, middle as int) =~= first_lines);
        assert(texts(lines@).subrange(middle as int, lines@.len() as int) =~= second_lines);
        lemma_every_line_counts(first_lines, BenchmarkEventSource::Stdout, config@);
        lemma_every_line_counts(second_lines, BenchmarkEventSource::Stderr, config@);
    }
    let end = lines.len();
    let mut report = parse_lines(&lines, 0, middle, BenchmarkEventSource::Stdout, config);
    let mut second = parse_lines(&lines, middle, end, BenchmarkEventSource::Stderr, config);
    let ghost (a, b) = (report@, second@);
    report.events.append(&mut second.events);
    report.malformed_markers.append(&mut second.malformed_markers);
    report.ignored_line_count = report.ignored_line_count + second.ignored_line_count;
    assert(report@.events =~= a.events + b.events);
    assert(report@.malformed_markers =~= a.malformed_markers + b.malformed_markers);
    report
}

/// A text without separators is one piece.
pub proof fn lemma_pieces_plain(text: Seq<char>, separator: char)
    requires
        forall|i: int| 0 <= i < text.len() ==> #[trigger] text[i] != separator,
    ensures
        pieces(text, separator) == seq![text],
    decreases text.len(),
{
    if text.len() > 0 {
        lemma_pieces_plain(text.drop_last(), separator);
        let before = seq![text.drop_last()];
        assert(before.last() == text.drop_last());
        assert(text.drop_last().push(text.last()) =~= text);
        assert(before.drop_last().push(text) =~= seq![text]);
    } else {
        assert(text =~= Seq::<char>::empty());
    }
}

/// A separator and a text without separators add one piece.
pub proof fn lemma_pieces_append(text: Seq<char>, separator: char, tail: Seq<char>)
    requires
        forall|i: int| 0 <= i < tail.len() ==> #[trigger] tail[i] != separator,
    ensures
        pieces(text.push(separator) + tail, separator) == pieces(text, separator).push(tail),
    decreases tail.len(),
{
    let whole = text.push(separator) + tail;
    if tail.len() == 0 {
        assert(whole =~= text.push(separator));
        assert(whole.drop_last() =~= text);
        assert(tail =~= Seq::<char>::empty());
    } else {
        lemma_pieces_append(text, separator, tail.drop_last());
        assert(whole.drop_last() =~= text.push(separator) + tail.drop_last());
        assert(whole.last() == tail.last());
        assert(tail.drop_last().push(tail.last()) =~= tail);
        let before = pieces(text, separator).push(tail.drop_last());
        assert(before.drop_last() =~= pieces(text, separator));
    }
}

spec fn has_no_bar(text: Seq<char>) -> bool {
    forall|i: int| 0 <= i < text.len() ==> #[trigger] text[i] != '|'
}

proof fn lemma_decimal_has_no_bar(value: nat)
    ensures
        has_no_bar(decimal(value)),
{
    lemma_decimal_digits(value);
    assert forall|i: int| 0 <= i < decimal(value).len() implies #[trigger] decimal(value)[i]
        != '|' by {
        assert(is_digit(decimal(value)[i]));
    }
}

/// A formatted marker is read back as it was: same prefix, label, kind and counters.
pub proof fn lemma_marker_round_trip(
    prefix: Seq<char>,
    label: Seq<char>,
    counters: BenchmarkCounters,
    source_line: int,
    source: BenchmarkEventSource,
    config: ConfigView,
)
    requires
        config.prefixes.contains(prefix),
        forall|i: int| 0 <= i < prefix.len() ==> #[trigger] prefix[i] != '|',
        forall|i: int| 0 <= i < label.len() ==> #[trigger] label[i] != '|',
        label_kind(label) is Some,
    ensures
        is_prefixed(marker_text(prefix, label, counters), config.prefixes),
        marker_complaint(marker_text(prefix, label, counters), config) is None,
        ({
            let event = marker_of(
                marker_text(prefix, label, counters),
                source_line,
                source,
                config,
            );
            &&& event.prefix == prefix
            &&& event.label == label
            &&& (event.span_label, event.kind) == label_kind(label)->0
            &&& event.suite == suite_of(config.suite_derivation, event.span_label)
            &&& event.counters == counters
        }),
{
    reveal_strlit("|");
    assert("|"@ =~= seq!['|']);
    let (a, b, c, d) = (
        decimal(counters.instructions as nat),
        decimal(counters.heap_bytes as nat),
        decimal(counters.memory_bytes as nat),
        decimal(counters.total_allocation as nat),
    );
    lemma_decimal_has_no_bar(counters.instructions as nat);
    lemma_decimal_has_no_bar(counters.heap_bytes as nat);
    lemma_decimal_has_no_bar(counters.memory_bytes as nat);
    lemma_decimal_has_no_bar(counters.total_allocation as nat);
    lemma_decimal_round_trip(counters.instructions as nat);
    lemma_decimal_round_trip(counters.heap_bytes as nat);
    lemma_decimal_round_trip(counters.memory_bytes as nat);
    lemma_decimal_round_trip(counters.total_allocation as nat);
    lemma_decimal_digits(counters.instructions as nat);
    lemma_decimal_digits(counters.heap_bytes as nat);
    lemma_decimal_digits(counters.memory_bytes as nat);
    lemma_decimal_digits(counters.total_allocation as nat);
    let line = marker_text(prefix, label, counters);
    let t1 = prefix.push('|') + label;
    let t2 = t1.push('|') + a;
    let t3 = t2.push('|') + b;
    let t4 = t3.push('|') + c;
    let t5 = t4.push('|') + d;
    lemma_pieces_plain(prefix, '|');
    lemma_pieces_append(prefix, '|', label);
    lemma_pieces_append(t1, '|', a);
    lemma_pieces_append(t2, '|', b);
    lemma_pieces_append(t3, '|', c);
    lemma_pieces_append(t4, '|', d);
    assert(line =~= t5);
    let columns = pieces(line, '|');
    assert(columns =~= seq![prefix, label, a, b, c, d]);
    assert((prefix + seq!['|']) =~= line.take(prefix.len() as int + 1));
    let i = choose|i: int| 0 <= i < config.prefixes.len() && config.prefixes[i] == prefix;
    assert((config.prefixes[i] + seq!['|']).is_prefix_of(line));
    assert(label.len() > 0);
}

} // verus!

//! Pairing of start and end markers into spans.

use vstd::prelude::*;
use vstd::string::*;
use vstd::utf8::encode_utf8;
use super::markers::{
    event_views, BenchmarkCounters, BenchmarkEventKind, EventView, RawBenchmarkEvent,
};
use crate::order::{
    bytes_before, bytes_less, insert_by, lemma_bytes_less_irreflexive, lemma_ranked_view,
    sort_ranked, sorted_by, Ranked,
};
use crate::text::text_equal;

verus! {

/// A measured span.
#[derive(Clone, Debug)]
pub struct BenchmarkSpan {
    /// Suite of the span.
    pub suite: String,
    /// Label of the span.
    pub span_label: String,
    /// Line of its start marker.
    pub start_line: usize,
    /// Line of its end marker.
    pub end_line: usize,
    /// Counters at its start.
    pub start: BenchmarkCounters,
    /// Counters at its end.
    pub end: BenchmarkCounters,
    /// What the span took.
    pub delta: BenchmarkCounters,
}

/// What a measured span says.
pub struct SpanView {
    /// Suite of the span.
    pub suite: Seq<char>,
    /// Label of the span.
    pub span_label: Seq<char>,
    /// Line of its start marker.
    pub start_line: int,
    /// Line of its end marker.
    pub end_line: int,
    /// Counters at its start.
    pub start: BenchmarkCounters,
    /// Counters at its end.
    pub end: BenchmarkCounters,
    /// What the span took.
    pub delta: BenchmarkCounters,
}

impl View for BenchmarkSpan {
    type V = SpanView;

    open spec fn view(&self) -> SpanView {
        SpanView {
            suite: self.suite@,
            span_label: self.span_label@,
            start_line: self.start_line as int,
            end_line: self.end_line as int,
            start: self.start,
            end: self.end,
            delta: self.delta,
        }
    }
}

/// Views of a list of spans.
pub open spec fn span_views(spans: Seq<BenchmarkSpan>) -> Seq<SpanView> {
    spans.map_values(|span: BenchmarkSpan| span@)
}

/// Which marker of a span is missing its partner.
#[derive(Clone, Copy, Debug, PartialEq, Eq, Structural)]
pub enum UnpairedBenchmarkMarkerKind {
    /// A start without an end.
    Start,
    /// An end without a start.
    End,
}

/// A marker without a partner.
#[derive(Clone, Debug)]
pub struct UnpairedBenchmarkMarker {
    /// The marker.
    pub event: RawBenchmarkEvent,
    /// Which partner is missing.
    pub kind: UnpairedBenchmarkMarkerKind,
}

/// What a marker without a partner says.
pub struct UnpairedView {
    /// The marker.
    pub event: EventView,
    /// Which partner is missing.
    pub kind: UnpairedBenchmarkMarkerKind,
}

impl View for UnpairedBenchmarkMarker {
    type V = UnpairedView;

    open spec fn view(&self) -> UnpairedView {
        UnpairedView { event: self.event@, kind: self.kind }
    }
}

/// Views of a list of markers without a partner.
pub open spec fn unpaired_views(markers: Seq<UnpairedBenchmarkMarker>) -> Seq<UnpairedView> {
    markers.map_values(|marker: UnpairedBenchmarkMarker| marker@)
}

/// Two markers that belong together and cannot both be right.
#[derive(Clone, Debug)]
pub struct InvalidBenchmarkSpan {
    /// Start marker.
    pub start: RawBenchmarkEvent,
    /// End marker.
    pub end: RawBenchmarkEvent,
    /// What is wrong with them.
    pub reason: String,
}

/// What an invalid span says.
pub struct InvalidView {
    /// Start marker.
    pub start: EventView,
    /// End marker.
    pub end: EventView,
    /// What is wrong with them.
    pub reason: Seq<char>,
}

impl View for InvalidBenchmarkSpan {
    type V = InvalidView;

    open spec fn view(&self) -> InvalidView {
        InvalidView { start: self.start@, end: self.end@, reason: self.reason@ }
    }
}

/// Views of a list of invalid spans.
pub open spec fn invalid_views(spans: Seq<InvalidBenchmarkSpan>) -> Seq<InvalidView> {
    spans.map_values(|span: InvalidBenchmarkSpan| span@)
}

/// Everything that pairing found.
#[derive(Clone, Debug)]
pub struct BenchmarkSpanReport {
    /// Measured spans, in the order of their ends.
    pub spans: Vec<BenchmarkSpan>,
    /// Markers without a partner: ends in order, then starts by suite and label.
    pub unpaired_markers: Vec<UnpairedBenchmarkMarker>,
    /// Invalid spans, in the order of their ends.
    pub invalid_spans: Vec<InvalidBenchmarkSpan>,
}

impl Default for BenchmarkSpanReport {
    fn default() -> (report: Self)
        ensures
            report.spans@.len() == 0,
            report.unpaired_markers@.len() == 0,
            report.invalid_spans@.len() == 0,
    {
        BenchmarkSpanReport {
            spans: Vec::new(),
            unpaired_markers: Vec::new(),
            invalid_spans: Vec::new(),
        }
    }
}

/// Whether no counter fell between a start and an end.
pub open spec fn is_rising(start: BenchmarkCounters, end: BenchmarkCounters) -> bool {
    &&& start.instructions <= end.instructions
    &&& start.heap_bytes <= end.heap_bytes
    &&& start.memory_bytes <= end.memory_bytes
    &&& start.total_allocation <= end.total_allocation
}

/// How much each counter rose.
pub open spec fn rise(start: BenchmarkCounters, end: BenchmarkCounters) -> BenchmarkCounters {
    BenchmarkCounters {
        instructions: (end.instructions - start.instructions) as u128,
        heap_bytes: (end.heap_bytes - start.heap_bytes) as u128,
        memory_bytes: (end.memory_bytes - start.memory_bytes) as u128,
        total_allocation: (end.total_allocation - start.total_allocation) as u128,
    }
}

impl BenchmarkCounters {
    /// How much each counter rose since `start`, unless one fell.
    pub fn checked_delta(self, start: Self) -> (delta: Option<Self>)
        ensures
            delta == if is_rising(start, self) {
                Some(rise(start, self))
            } else {
                None
            },
    {
        if self.instructions < start.instructions || self.heap_bytes < start.heap_bytes
            || self.memory_bytes < start.memory_bytes || self.total_allocation
            < start.total_allocation {
            return None;
        }
        Some(
            BenchmarkCounters {
                instructions: self.instructions - start.instructions,
                heap_bytes: self.heap_bytes - start.heap_bytes,
                memory_bytes: self.memory_bytes - start.memory_bytes,
                total_allocation: self.total_allocation - start.total_allocation,
            },
        )
    }
}

/// Whether two markers belong to the same span.
pub open spec fn same_span(left: EventView, right: EventView) -> bool {
    left.suite == right.suite && left.span_label == right.span_label
}

/// Position of the last of the first `upto` markers that belongs to the span of `event`.
pub open spec fn last_open(open: Seq<EventView>, event: EventView, upto: int) -> Option<int>
    decreases upto,
{
    if upto <= 0 {
        None
    } else if same_span(open[upto - 1], event) {
        Some(upto - 1)
    } else {
        last_open(open, event, upto - 1)
    }
}

/// How far pairing has come.
#[verifier::ext_equal]
pub struct PairingView {
    /// Paired starts and ends, in the order of their ends.
    pub pairs: Seq<(EventView, EventView)>,
    /// Ends without a start, in order.
    pub ends: Seq<EventView>,
    /// Starts that wait for their ends, in order.
    pub open: Seq<EventView>,
}

/// Pairing after one more marker: an end closes the last open start of its span.
pub open spec fn paired_with(state: PairingView, event: EventView) -> PairingView {
    match event.kind {
        BenchmarkEventKind::Start => PairingView { open: state.open.push(event), ..state },
        BenchmarkEventKind::End => match last_open(state.open, event, state.open.len() as int) {
            Some(at) => PairingView {
                pairs: state.pairs.push((state.open[at], event)),
                open: state.open.remove(at),
                ..state
            },
            None => PairingView { ends: state.ends.push(event), ..state },
        },
    }
}

/// Pairing of a list of markers.
pub open spec fn pairing(events: Seq<EventView>) -> PairingView
    decreases events.len(),
{
    if events.len() == 0 {
        PairingView { pairs: seq![], ends: seq![], open: seq![] }
    } else {
        paired_with(pairing(events.drop_last()), events.last())
    }
}

/// The span of a pair.
pub open spec fn span_of(pair: (EventView, EventView)) -> SpanView {
    SpanView {
        suite: pair.0.suite,
        span_label: pair.0.span_label,
        start_line: pair.0.source_line,
        end_line: pair.1.source_line,
        start: pair.0.counters,
        end: pair.1.counters,
        delta: rise(pair.0.counters, pair.1.counters),
    }
}

/// The spans of the pairs whose counters did not fall.
pub open spec fn spans_of(pairs: Seq<(EventView, EventView)>) -> Seq<SpanView>
    decreases pairs.len(),
{
    if pairs.len() == 0 {
        seq![]
    } else if is_rising(pairs.last().0.counters, pairs.last().1.counters) {
        spans_of(pairs.drop_last()).push(span_of(pairs.last()))
    } else {
        spans_of(pairs.drop_last())
    }
}

/// The pairs with a counter that fell.
pub open spec fn invalid_of(pairs: Seq<(EventView, EventView)>) -> Seq<InvalidView>
    decreases pairs.len(),
{
    if pairs.len() == 0 {
        seq![]
    } else if is_rising(pairs.last().0.counters, pairs.last().1.counters) {
        invalid_of(pairs.drop_last())
    } else {
        invalid_of(pairs.drop_last()).push(
            InvalidView {
                start: pairs.last().0,
                end: pairs.last().1,
                reason: "end counter is lower than start counter"@,
            },
        )
    }
}

/// Markers without a partner, all of one kind.
pub open spec fn unpaired_of(events: Seq<EventView>, kind: UnpairedBenchmarkMarkerKind) -> Seq<
    UnpairedView,
> {
    events.map_values(|event: EventView| UnpairedView { event, kind })
}

/// Whether a marker stands before another by suite, then by label.
pub open spec fn event_before() -> spec_fn(EventView, EventView) -> bool {
    |left: EventView, right: EventView|
        {
            ||| bytes_less(encode_utf8(left.suite), encode_utf8(right.suite))
            ||| left.suite == right.suite && bytes_less(
                encode_utf8(left.span_label),
                encode_utf8(right.span_label),
            )
        }
}

/// Markers without a partner: the ends in order, then the starts by suite and label.
pub open spec fn unpaired_in(state: PairingView) -> Seq<UnpairedView> {
    unpaired_of(state.ends, UnpairedBenchmarkMarkerKind::End) + unpaired_of(
        sorted_by(state.open, event_before()),
        UnpairedBenchmarkMarkerKind::Start,
    )
}

/// Markers are ranked by suite, then by label.
impl Ranked for RawBenchmarkEvent {
    open spec fn precedes(&self, other: &Self) -> bool {
        ||| bytes_less(encode_utf8(self.suite@), encode_utf8(other.suite@))
        ||| self.suite@ == other.suite@ && bytes_less(
            encode_utf8(self.span_label@),
            encode_utf8(other.span_label@),
        )
    }

    fn comes_before(&self, other: &Self) -> (before: bool) {
        bytes_before(self.suite.as_str().as_bytes(), other.suite.as_str().as_bytes()) || (
        text_equal(self.suite.as_str(), other.suite.as_str()) && bytes_before(
            self.span_label.as_str().as_bytes(),
            other.span_label.as_str().as_bytes(),
        ))
    }
}

fn push_paired_span(report: &mut BenchmarkSpanReport, start: RawBenchmarkEvent, end: RawBenchmarkEvent)
    ensures
        final(report).unpaired_markers == old(report).unpaired_markers,
        if is_rising(start.counters, end.counters) {
            &&& span_views(final(report).spans@) == span_views(old(report).spans@).push(
                span_of((start@, end@)),
            )
            &&& final(report).invalid_spans == old(report).invalid_spans
        } else {
            &&& final(report).spans == old(report).spans
            &&& invalid_views(final(report).invalid_spans@) == invalid_views(
                old(report).invalid_spans@,
            ).push(
                InvalidView {
                    start: start@,
                    end: end@,
                    reason: "end counter is lower than start counter"@,
                },
            )
        },
{
    match end.counters.checked_delta(start.counters) {
        Some(delta) => {
            let ghost (first, last) = (start@, end@);
            report.spans.push(
                BenchmarkSpan {
                    suite: start.suite,
                    span_label: start.span_label,
                    start_line: start.source_line,
                    end_line: end.source_line,
                    start: start.counters,
                    end: end.counters,
                    delta,
                },
            );
            assert(span_views(report.spans@) =~= span_views(old(report).spans@).push(
                span_of((first, last)),
            ));
        },
        None => {
            let ghost invalid = InvalidView {
                start: start@,
                end: end@,
                reason: "end counter is lower than start counter"@,
            };
            report.invalid_spans.push(
                InvalidBenchmarkSpan {
                    start,
                    end,
                    reason: "end counter is lower than start counter".to_owned(),
                },
            );
            assert(invalid_views(report.invalid_spans@) =~= invalid_views(
                old(report).invalid_spans@,
            ).push(invalid));
        },
    }
}

fn find_last_open(open: &Vec<RawBenchmarkEvent>, event: &RawBenchmarkEvent) -> (found: Option<usize>)
    ensures
        match (found, last_open(event_views(open@), event@, open@.len() as int)) {
            (Some(at), Some(expected)) => at == expected && at < open@.len(),
            (None, None) => true,
            _ => false,
        },
{
    let ghost all = event_views(open@);
    let mut at: usize = open.len();
    while at > 0
        invariant
            at <= open@.len(),
            all == event_views(open@),
            last_open(all, event@, open@.len() as int) == last_open(all, event@, at as int),
        decreases at,
    {
        let candidate = &open[at - 1];
        assert(all[at - 1] == candidate@);
        if text_equal(candidate.suite.as_str(), event.suite.as_str()) && text_equal(
            candidate.span_label.as_str(),
            event.span_label.as_str(),
        ) {
            return Some(at - 1);
        }
        at = at - 1;
    }
    None
}

/// Pair start and end markers.
///
/// An end closes the last open start of its suite and label. A pair whose
/// counters fell is reported as invalid, and so is every marker without a
/// partner.
pub fn pair_benchmark_spans(events: &Vec<RawBenchmarkEvent>) -> (report: BenchmarkSpanReport)
    ensures
        ({
            let state = pairing(event_views(events@));
            &&& span_views(report.spans@) == spans_of(state.pairs)
            &&& invalid_views(report.invalid_spans@) == invalid_of(state.pairs)
            &&& unpaired_views(report.unpaired_markers@) == unpaired_in(state)
        }),
{
    let ghost all = event_views(events@);
    let mut report = BenchmarkSpanReport::default();
    let mut open: Vec<RawBenchmarkEvent> = Vec::new();
    let mut at: usize = 0;
    proof {
        let start = pairing(all.take(0));
        assert(event_views(open@) =~= start.open);
        assert(span_views(report.spans@) =~= spans_of(start.pairs));
        assert(invalid_views(report.invalid_spans@) =~= invalid_of(start.pairs));
        assert(unpaired_views(report.unpaired_markers@) =~= unpaired_of(
            start.ends,
            UnpairedBenchmarkMarkerKind::End,
        ));
    }
    while at < events.len()
        invariant
            at <= events@.len(),
            all == event_views(events@),
            event_views(open@) == pairing(all.take(at as int)).open,
            span_views(report.spans@) == spans_of(pairing(all.take(at as int)).pairs),
            invalid_views(report.invalid_spans@) == invalid_of(
                pairing(all.take(at as int)).pairs,
            ),
            unpaired_views(report.unpaired_markers@) == unpaired_of(
                pairing(all.take(at as int)).ends,
                UnpairedBenchmarkMarkerKind::End,
            ),
        decreases events.len() - at,
    {
        let event = &events[at];
        let ghost state = pairing(all.take(at as int));
        let ghost next = pairing(all.take(at + 1));
        proof {
            assert(all.take(at + 1).drop_last() =~= all.take(at as int));
            assert(all.take(at + 1).last() == event@);
            assert(next == paired_with(state, event@));
        }
        match event.kind {
            BenchmarkEventKind::Start => {
                open.push(event.duplicate());
                assert(event_views(open@) =~= state.open.push(event@));
            },
            BenchmarkEventKind::End => match find_last_open(&open, event) {
                Some(place) => {
                    let ghost before = event_views(open@);
                    let start = open.remove(place);
                    assert(start@ == before[place as int]);
                    assert(event_views(open@) =~= before.remove(place as int));
                    push_paired_span(&mut report, start, event.duplicate());
                    assert(next.pairs.drop_last() =~= state.pairs);
                    assert(next.pairs.last() == (start@, event@));
                },
                None => {
                    let ghost before = unpaired_views(report.unpaired_markers@);
                    report.unpaired_markers.push(
                        UnpairedBenchmarkMarker {
                            event: event.duplicate(),
                            kind: UnpairedBenchmarkMarkerKind::End,
                        },
                    );
                    assert(unpaired_views(report.unpaired_markers@) =~= before.push(
                        UnpairedView { event: event@, kind: UnpairedBenchmarkMarkerKind::End },
                    ));
                    assert(unpaired_of(next.ends, UnpairedBenchmarkMarkerKind::End)
                        =~= unpaired_of(state.ends, UnpairedBenchmarkMarkerKind::End).push(
                        UnpairedView { event: event@, kind: UnpairedBenchmarkMarkerKind::End },
                    ));
                },
            },
        }
        at = at + 1;
    }
    assert(all.take(at as int) =~= all);
    let ghost state = pairing(all);
    proof {
        lemma_ranked_view(open@, |event: RawBenchmarkEvent| event@, event_before());
    }
    sort_ranked(&mut open);
    let ghost starts = sorted_by(state.open, event_before());
    let ghost ends = unpaired_views(report.unpaired_markers@);
    let ghost rest = unpaired_of(starts, UnpairedBenchmarkMarkerKind::Start);
    let ghost mut taken: int = 0;
    let ghost sorted = open@;
    assert(event_views(sorted) =~= starts);
    assert(sorted.skip(0) =~= sorted);
    assert(ends + rest.take(0) =~= ends);
    while open.len() > 0
        invariant
            0 <= taken <= sorted.len(),
            open@ == sorted.skip(taken),
            event_views(sorted) == starts,
            rest == unpaired_of(starts, UnpairedBenchmarkMarkerKind::Start),
            span_views(report.spans@) == spans_of(state.pairs),
            invalid_views(report.invalid_spans@) == invalid_of(state.pairs),
            unpaired_views(report.unpaired_markers@) == ends + rest.take(taken),
        decreases open.len(),
    {
        let ghost before = unpaired_views(report.unpaired_markers@);
        let event = open.remove(0);
        assert(event == sorted[taken]);
        assert(starts[taken] == event@);
        report.unpaired_markers.push(
            UnpairedBenchmarkMarker { event, kind: UnpairedBenchmarkMarkerKind::Start },
        );
        proof {
            assert(unpaired_views(report.unpaired_markers@) =~= before.push(rest[taken]));
            assert(ends + rest.take(taken + 1) =~= (ends + rest.take(taken)).push(rest[taken]));
            assert(open@ =~= sorted.skip(taken + 1));
            taken = taken + 1;
        }
    }
    assert(rest.take(taken) =~= rest);
    report
}

proof fn lemma_last_open(open: Seq<EventView>, event: EventView, upto: int)
    requires
        0 <= upto <= open.len(),
    ensures
        match last_open(open, event, upto) {
            Some(at) => {
                &&& 0 <= at < upto
                &&& same_span(open[at], event)
                &&& forall|i: int|
                    at < i < upto ==> !same_span(#[trigger] open[i], event)
            },
            None => forall|i: int|
                0 <= i < upto ==> !same_span(#[trigger] open[i], event),
        },
    decreases upto,
{
    if upto > 0 && !same_span(open[upto - 1], event) {
        lemma_last_open(open, event, upto - 1);
    }
}

/// Every marker ends up in exactly one place: in a pair, among the ends or among the starts
/// without a partner.
pub proof fn lemma_every_marker_counts(events: Seq<EventView>)
    ensures
        ({
            let state = pairing(events);
            2 * state.pairs.len() + state.ends.len() + state.open.len() == events.len()
        }),
    decreases events.len(),
{
    if events.len() > 0 {
        lemma_every_marker_counts(events.drop_last());
        let state = pairing(events.drop_last());
        lemma_last_open(state.open, events.last(), state.open.len() as int);
    }
}

proof fn lemma_open_are_starts(events: Seq<EventView>)
    ensures
        forall|i: int|
            0 <= i < pairing(events).open.len() ==> (
            #[trigger] pairing(events).open[i]).kind is Start,
        forall|i: int|
            0 <= i < pairing(events).pairs.len() ==> {
                let pair = #[trigger] pairing(events).pairs[i];
                same_span(pair.0, pair.1) && pair.0.kind is Start && pair.1.kind is End
            },
    decreases events.len(),
{
    if events.len() > 0 {
        let shorter = events.drop_last();
        lemma_open_are_starts(shorter);
        let state = pairing(shorter);
        let next = pairing(events);
        lemma_last_open(state.open, events.last(), state.open.len() as int);
        assert forall|i: int| 0 <= i < next.open.len() implies (
        #[trigger] next.open[i]).kind is Start by {
            match last_open(state.open, events.last(), state.open.len() as int) {
                Some(at) => {
                    if events.last().kind is End {
                        if i < at {
                            assert(next.open[i] == state.open[i]);
                        } else {
                            assert(next.open[i] == state.open[i + 1]);
                        }
                    } else if i < state.open.len() {
                        assert(next.open[i] == state.open[i]);
                    }
                },
                None => {
                    if i < state.open.len() {
                        assert(next.open[i] == state.open[i]);
                    }
                },
            }
        }
        assert forall|i: int| 0 <= i < next.pairs.len() implies ({
            let pair = #[trigger] next.pairs[i];
            same_span(pair.0, pair.1) && pair.0.kind is Start && pair.1.kind is End
        }) by {
            if i < state.pairs.len() {
                assert(next.pairs[i] == state.pairs[i]);
            }
        }
    }
}

/// A pair consists of a start and an end of the same suite and label.
pub proof fn lemma_pairs_match(events: Seq<EventView>, at: int)
    requires
        0 <= at < pairing(events).pairs.len(),
    ensures
        ({
            let pair = pairing(events).pairs[at];
            same_span(pair.0, pair.1) && pair.0.kind is Start && pair.1.kind is End
        }),
{
    lemma_open_are_starts(events);
}

/// The counters of a span at its end are those at its start plus what the span took.
pub proof fn lemma_span_adds_up(pair: (EventView, EventView))
    requires
        is_rising(pair.0.counters, pair.1.counters),
    ensures
        ({
            let span = span_of(pair);
            &&& span.start.instructions + span.delta.instructions == span.end.instructions
            &&& span.start.heap_bytes + span.delta.heap_bytes == span.end.heap_bytes
            &&& span.start.memory_bytes + span.delta.memory_bytes == span.end.memory_bytes
            &&& span.start.total_allocation + span.delta.total_allocation
                == span.end.total_allocation
        }),
{
}

/// Whether a marker belongs to the span of this suite and label.
pub open spec fn belongs_to(suite: Seq<char>, span_label: Seq<char>) -> spec_fn(EventView) -> bool {
    |event: EventView| event.suite == suite && event.span_label == span_label
}

/// Whether a measured span has this suite and label.
pub open spec fn is_span_of(suite: Seq<char>, span_label: Seq<char>) -> spec_fn(SpanView) -> bool {
    |span: SpanView| span.suite == suite && span.span_label == span_label
}

/// Whether the start of an invalid span has this suite and label.
pub open spec fn is_invalid_of(suite: Seq<char>, span_label: Seq<char>) -> spec_fn(
    InvalidView,
) -> bool {
    |span: InvalidView| belongs_to(suite, span_label)(span.start)
}

/// Whether a marker without a partner has this suite and label.
pub open spec fn is_unpaired_of(suite: Seq<char>, span_label: Seq<char>) -> spec_fn(
    UnpairedView,
) -> bool {
    |marker: UnpairedView| belongs_to(suite, span_label)(marker.event)
}

/// Whether the start of a pair has this suite and label.
pub open spec fn is_pair_of(suite: Seq<char>, span_label: Seq<char>) -> spec_fn(
    (EventView, EventView),
) -> bool {
    |pair: (EventView, EventView)| belongs_to(suite, span_label)(pair.0)
}

proof fn lemma_filter_push<A>(items: Seq<A>, item: A, keep: spec_fn(A) -> bool)
    ensures
        items.push(item).filter(keep) == if keep(item) {
            items.filter(keep).push(item)
        } else {
            items.filter(keep)
        },
{
    reveal(Seq::filter);
    assert(items.push(item).drop_last() =~= items);
}

proof fn lemma_filter_last<A>(items: Seq<A>, keep: spec_fn(A) -> bool)
    requires
        items.len() > 0,
    ensures
        items.filter(keep) == if keep(items.last()) {
            items.drop_last().filter(keep).push(items.last())
        } else {
            items.drop_last().filter(keep)
        },
{
    lemma_filter_push(items.drop_last(), items.last(), keep);
    assert(items.drop_last().push(items.last()) =~= items);
}

proof fn lemma_filter_none<A>(items: Seq<A>, keep: spec_fn(A) -> bool)
    requires
        forall|i: int| 0 <= i < items.len() ==> !keep(#[trigger] items[i]),
    ensures
        items.filter(keep) == Seq::<A>::empty(),
    decreases items.len(),
{
    if items.len() == 0 {
        reveal(Seq::filter);
    } else {
        lemma_filter_last(items, keep);
        assert(!keep(items[items.len() - 1]));
        assert forall|i: int| 0 <= i < items.len() - 1 implies !keep(
            #[trigger] items.drop_last()[i],
        ) by {
            assert(!keep(items[i]));
        }
        lemma_filter_none(items.drop_last(), keep);
    }
}

proof fn lemma_filter_remove<A>(items: Seq<A>, at: int, keep: spec_fn(A) -> bool)
    requires
        0 <= at < items.len(),
        forall|i: int| at < i < items.len() ==> !(keep(items[at]) && keep(#[trigger] items[i])),
    ensures
        !keep(items[at]) ==> items.remove(at).filter(keep) == items.filter(keep),
        keep(items[at]) ==> items.filter(keep) == items.remove(at).filter(keep).push(items[at]),
    decreases items.len(),
{
    lemma_filter_last(items, keep);
    let shorter = items.drop_last();
    if at == items.len() - 1 {
        assert(items.remove(at) =~= shorter);
    } else {
        assert forall|i: int| at < i < shorter.len() implies !(keep(shorter[at]) && keep(
            #[trigger] shorter[i],
        )) by {
            assert(items[i] == shorter[i]);
        }
        lemma_filter_remove(shorter, at, keep);
        assert(items.remove(at) =~= shorter.remove(at).push(items.last()));
        assert(items[items.len() - 1] == items.last());
        lemma_filter_push(shorter.remove(at), items.last(), keep);
    }
}

proof fn lemma_last_open_of_own(open: Seq<EventView>, event: EventView)
    requires
        forall|i: int| 0 <= i < open.len() ==> same_span(#[trigger] open[i], event),
    ensures
        last_open(open, event, open.len() as int) == if open.len() > 0 {
            Some(open.len() - 1)
        } else {
            None
        },
{
    if open.len() > 0 {
        assert(same_span(open[open.len() - 1], event));
    }
}

/// The markers of one span are paired as if there were no others.
pub proof fn lemma_pairing_by_span(
    events: Seq<EventView>,
    suite: Seq<char>,
    span_label: Seq<char>,
)
    ensures
        ({
            let keep = belongs_to(suite, span_label);
            let (own, all) = (pairing(events.filter(keep)), pairing(events));
            &&& own.pairs == all.pairs.filter(is_pair_of(suite, span_label))
            &&& own.ends == all.ends.filter(keep)
            &&& own.open == all.open.filter(keep)
        }),
    decreases events.len(),
{
    let keep = belongs_to(suite, span_label);
    let keep_pair = is_pair_of(suite, span_label);
    if events.len() == 0 {
        reveal(Seq::filter);
    } else {
        let event = events.last();
        let shorter = events.drop_last();
        let (own, all) = (pairing(shorter.filter(keep)), pairing(shorter));
        lemma_pairing_by_span(shorter, suite, span_label);
        lemma_filter_last(events, keep);
        lemma_filter_push(all.ends, event, keep);
        lemma_filter_push(all.open, event, keep);
        if keep(event) {
            assert(events.filter(keep).drop_last() =~= shorter.filter(keep));
        }
        if event.kind is End {
            let open = all.open;
            lemma_last_open(open, event, open.len() as int);
            match last_open(open, event, open.len() as int) {
                Some(at) => {
                    lemma_filter_push(all.pairs, (open[at], event), keep_pair);
                    lemma_filter_remove(open, at, keep);
                    if keep(event) {
                        let left = open.remove(at).filter(keep);
                        assert forall|i: int| 0 <= i < own.open.len() implies same_span(
                            #[trigger] own.open[i],
                            event,
                        ) by {
                            open.lemma_filter_pred(keep, i);
                        }
                        lemma_last_open_of_own(own.open, event);
                        assert(own.open == left.push(open[at]));
                        assert(own.open.remove(own.open.len() - 1) =~= left);
                    }
                },
                None => {
                    if keep(event) {
                        lemma_filter_none(open, keep);
                    }
                },
            }
        }
    }
}

proof fn lemma_spans_by_span(
    pairs: Seq<(EventView, EventView)>,
    suite: Seq<char>,
    span_label: Seq<char>,
)
    ensures
        spans_of(pairs.filter(is_pair_of(suite, span_label))) == spans_of(pairs).filter(
            is_span_of(suite, span_label),
        ),
        invalid_of(pairs.filter(is_pair_of(suite, span_label))) == invalid_of(pairs).filter(
            is_invalid_of(suite, span_label),
        ),
    decreases pairs.len(),
{
    let keep = is_pair_of(suite, span_label);
    if pairs.len() == 0 {
        reveal(Seq::filter);
    } else {
        let (shorter, pair) = (pairs.drop_last(), pairs.last());
        lemma_spans_by_span(shorter, suite, span_label);
        lemma_filter_last(pairs, keep);
        if keep(pair) {
            assert(pairs.filter(keep).drop_last() =~= shorter.filter(keep));
        }
        lemma_filter_push(spans_of(shorter), span_of(pair), is_span_of(suite, span_label));
        lemma_filter_push(
            invalid_of(shorter),
            InvalidView {
                start: pair.0,
                end: pair.1,
                reason: "end counter is lower than start counter"@,
            },
            is_invalid_of(suite, span_label),
        );
    }
}

proof fn lemma_unpaired_by_span(
    events: Seq<EventView>,
    kind: UnpairedBenchmarkMarkerKind,
    suite: Seq<char>,
    span_label: Seq<char>,
)
    ensures
        unpaired_of(events.filter(belongs_to(suite, span_label)), kind) == unpaired_of(
            events,
            kind,
        ).filter(is_unpaired_of(suite, span_label)),
    decreases events.len(),
{
    let keep = belongs_to(suite, span_label);
    let keep_marker = is_unpaired_of(suite, span_label);
    if events.len() == 0 {
        lemma_filter_none(events, keep);
        lemma_filter_none(unpaired_of(events, kind), keep_marker);
        assert(unpaired_of(events.filter(keep), kind) =~= Seq::<UnpairedView>::empty());
    } else {
        let (shorter, event) = (events.drop_last(), events.last());
        let marker = UnpairedView { event, kind };
        lemma_unpaired_by_span(shorter, kind, suite, span_label);
        lemma_filter_last(events, keep);
        lemma_filter_push(unpaired_of(shorter, kind), marker, keep_marker);
        assert(unpaired_of(events, kind) =~= unpaired_of(shorter, kind).push(marker));
        if keep(event) {
            assert(unpaired_of(shorter.filter(keep).push(event), kind) =~= unpaired_of(
                shorter.filter(keep),
                kind,
            ).push(marker));
        }
    }
}

proof fn lemma_insert_keeps_ties<A>(
    items: Seq<A>,
    item: A,
    before: spec_fn(A, A) -> bool,
    keep: spec_fn(A) -> bool,
)
    requires
        forall|a: A, b: A| keep(a) && keep(b) ==> !#[trigger] before(a, b),
    ensures
        insert_by(items, item, before).filter(keep) == items.push(item).filter(keep),
    decreases items.len(),
{
    if items.len() > 0 && before(item, items.last()) {
        let inner = insert_by(items.drop_last(), item, before);
        lemma_insert_keeps_ties(items.drop_last(), item, before, keep);
        lemma_filter_push(items.drop_last(), item, keep);
        lemma_filter_push(inner, items.last(), keep);
        lemma_filter_push(items, item, keep);
        lemma_filter_last(items, keep);
    }
}

proof fn lemma_sorted_keeps_ties<A>(
    items: Seq<A>,
    before: spec_fn(A, A) -> bool,
    keep: spec_fn(A) -> bool,
)
    requires
        forall|a: A, b: A| keep(a) && keep(b) ==> !#[trigger] before(a, b),
    ensures
        sorted_by(items, before).filter(keep) == items.filter(keep),
    decreases items.len(),
{
    if items.len() > 0 {
        let sorted = sorted_by(items.drop_last(), before);
        lemma_sorted_keeps_ties(items.drop_last(), before, keep);
        lemma_insert_keeps_ties(sorted, items.last(), before, keep);
        lemma_filter_push(sorted, items.last(), keep);
        lemma_filter_last(items, keep);
    }
}

proof fn lemma_sorted_ties<A>(items: Seq<A>, before: spec_fn(A, A) -> bool)
    requires
        forall|i: int, j: int|
            0 <= i < items.len() && 0 <= j < items.len() ==> !#[trigger] before(items[i], items[j]),
    ensures
        sorted_by(items, before) == items,
    decreases items.len(),
{
    if items.len() > 0 {
        let shorter = items.drop_last();
        assert forall|i: int, j: int|
            0 <= i < shorter.len() && 0 <= j < shorter.len() implies !#[trigger] before(
            shorter[i],
            shorter[j],
        ) by {
            assert(!before(items[i], items[j]));
        }
        lemma_sorted_ties(shorter, before);
        if shorter.len() > 0 {
            assert(!before(items[items.len() - 1], items[items.len() - 2]));
        }
        assert(shorter.push(items.last()) =~= items);
    }
}

/// Markers of other spans never change what is found of a span: its measured spans, its invalid
/// spans and its markers without a partner are those of its own markers alone, in the same order.
pub proof fn lemma_other_spans_do_not_interfere(
    events: Seq<EventView>,
    suite: Seq<char>,
    span_label: Seq<char>,
)
    ensures
        ({
            let own = pairing(events.filter(belongs_to(suite, span_label)));
            let all = pairing(events);
            &&& spans_of(own.pairs) == spans_of(all.pairs).filter(is_span_of(suite, span_label))
            &&& invalid_of(own.pairs) == invalid_of(all.pairs).filter(
                is_invalid_of(suite, span_label),
            )
            &&& unpaired_in(own) == unpaired_in(all).filter(is_unpaired_of(suite, span_label))
        }),
{
    let keep = belongs_to(suite, span_label);
    let keep_marker = is_unpaired_of(suite, span_label);
    let (own, all) = (pairing(events.filter(keep)), pairing(events));
    let (ends, starts) = (UnpairedBenchmarkMarkerKind::End, UnpairedBenchmarkMarkerKind::Start);
    let sorted = sorted_by(all.open, event_before());
    lemma_pairing_by_span(events, suite, span_label);
    lemma_spans_by_span(all.pairs, suite, span_label);
    lemma_unpaired_by_span(all.ends, ends, suite, span_label);
    lemma_unpaired_by_span(sorted, starts, suite, span_label);
    Seq::filter_distributes_over_add(
        unpaired_of(all.ends, ends),
        unpaired_of(sorted, starts),
        keep_marker,
    );
    assert forall|a: EventView, b: EventView| keep(a) && keep(b) implies !#[trigger] event_before()(
        a,
        b,
    ) by {
        lemma_bytes_less_irreflexive(encode_utf8(suite));
        lemma_bytes_less_irreflexive(encode_utf8(span_label));
    }
    lemma_sorted_keeps_ties(all.open, event_before(), keep);
    assert forall|i: int, j: int|
        0 <= i < own.open.len() && 0 <= j < own.open.len() implies !#[trigger] event_before()(
        own.open[i],
        own.open[j],
    ) by {
        all.open.lemma_filter_pred(keep, i);
        all.open.lemma_filter_pred(keep, j);
    }
    lemma_sorted_ties(own.open, event_before());
}

} // verus!

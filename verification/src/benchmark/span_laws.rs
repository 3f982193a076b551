//! What pairing says of the markers that it was given.

use vstd::prelude::*;
use vstd::string::*;
use vstd::utf8::encode_utf8;
use super::markers::{
    event_views, BenchmarkCounters, BenchmarkEventKind, EventView, RawBenchmarkEvent,
};
use super::spans::{
    event_before, invalid_of, invalid_views, last_open, lemma_every_marker_counts, pairing,
    span_views, spans_of, unpaired_in, unpaired_views, BenchmarkSpanReport, SpanView,
    UnpairedBenchmarkMarkerKind,
};
use crate::order::{
    bytes_less, is_strict_weak_order, lemma_bytes_less_irreflexive, lemma_bytes_less_total,
    lemma_bytes_less_transitive, lemma_sorted_is_in_order, lemma_sorted_is_permutation, sorted_by,
};

verus! {

/// Whether each counter at the end is at least what it was at the start.
pub open spec fn no_counter_fell(start: BenchmarkCounters, end: BenchmarkCounters) -> bool {
    &&& end.instructions >= start.instructions
    &&& end.heap_bytes >= start.heap_bytes
    &&& end.memory_bytes >= start.memory_bytes
    &&& end.total_allocation >= start.total_allocation
}

/// Whether a span was measured between a start and an end: it bears their names, lines and
/// counters, and what it took makes up the difference.
pub open spec fn was_measured(span: SpanView, start: EventView, end: EventView) -> bool {
    &&& span.suite == start.suite
    &&& span.span_label == start.span_label
    &&& span.start_line == start.source_line
    &&& span.end_line == end.source_line
    &&& span.start == start.counters
    &&& span.end == end.counters
    &&& start.counters.instructions + span.delta.instructions == end.counters.instructions
    &&& start.counters.heap_bytes + span.delta.heap_bytes == end.counters.heap_bytes
    &&& start.counters.memory_bytes + span.delta.memory_bytes == end.counters.memory_bytes
    &&& start.counters.total_allocation + span.delta.total_allocation
        == end.counters.total_allocation
}

/// A pair gives a span whenever no counter fell, equal counters included, and an invalid span
/// whenever one did: nothing is lost, and nothing is made up.
pub proof fn lemma_pairs_give_spans_unless_a_counter_fell(pairs: Seq<(EventView, EventView)>)
    ensures
        spans_of(pairs).len() + invalid_of(pairs).len() == pairs.len(),
        forall|i: int| #![trigger pairs[i]]
            0 <= i < pairs.len() && no_counter_fell(pairs[i].0.counters, pairs[i].1.counters)
                ==> exists|j: int|
                0 <= j < spans_of(pairs).len() && was_measured(
                    #[trigger] spans_of(pairs)[j],
                    pairs[i].0,
                    pairs[i].1,
                ),
        forall|i: int| #![trigger pairs[i]]
            0 <= i < pairs.len() && !no_counter_fell(pairs[i].0.counters, pairs[i].1.counters)
                ==> exists|j: int|
                0 <= j < invalid_of(pairs).len() && (#[trigger] invalid_of(pairs)[j]).start
                    == pairs[i].0 && invalid_of(pairs)[j].end == pairs[i].1,
        forall|j: int|
            0 <= j < spans_of(pairs).len() ==> no_counter_fell(
                (#[trigger] spans_of(pairs)[j]).start,
                spans_of(pairs)[j].end,
            ),
        forall|j: int|
            0 <= j < invalid_of(pairs).len() ==> !no_counter_fell(
                (#[trigger] invalid_of(pairs)[j]).start.counters,
                invalid_of(pairs)[j].end.counters,
            ),
    decreases pairs.len(),
{
    if pairs.len() > 0 {
        let shorter = pairs.drop_last();
        let (before, faults) = (spans_of(shorter), invalid_of(shorter));
        let (spans, invalid) = (spans_of(pairs), invalid_of(pairs));
        lemma_pairs_give_spans_unless_a_counter_fell(shorter);
        assert forall|i: int| #![trigger pairs[i]]
            0 <= i < pairs.len() && no_counter_fell(
                pairs[i].0.counters,
                pairs[i].1.counters,
            ) implies exists|j: int|
            0 <= j < spans.len() && was_measured(
                #[trigger] spans[j],
                pairs[i].0,
                pairs[i].1,
            ) by {
            if i < shorter.len() {
                assert(shorter[i] == pairs[i]);
                let j = choose|j: int|
                    0 <= j < before.len() && was_measured(
                        #[trigger] before[j],
                        pairs[i].0,
                        pairs[i].1,
                    );
                assert(spans[j] == before[j]);
            } else {
                assert(was_measured(spans[spans.len() - 1], pairs[i].0, pairs[i].1));
            }
        }
        assert forall|i: int| #![trigger pairs[i]]
            0 <= i < pairs.len() && !no_counter_fell(
                pairs[i].0.counters,
                pairs[i].1.counters,
            ) implies exists|j: int|
            0 <= j < invalid.len() && (#[trigger] invalid[j]).start == pairs[i].0
                && invalid[j].end == pairs[i].1 by {
            if i < shorter.len() {
                assert(shorter[i] == pairs[i]);
                let j = choose|j: int|
                    0 <= j < faults.len() && (#[trigger] faults[j]).start == pairs[i].0
                        && faults[j].end == pairs[i].1;
                assert(invalid[j] == faults[j]);
            } else {
                assert(invalid[invalid.len() - 1].start == pairs[i].0);
            }
        }
    }
}

/// Spans are reported in the order in which their ends were read, and so are invalid spans, which
/// say that the counter fell.
pub proof fn lemma_spans_keep_the_order_of_ends(
    pairs: Seq<(EventView, EventView)>,
    start: EventView,
    end: EventView,
)
    ensures
        ({
            let more = pairs.push((start, end));
            if no_counter_fell(start.counters, end.counters) {
                &&& spans_of(more).len() == spans_of(pairs).len() + 1
                &&& spans_of(more).drop_last() == spans_of(pairs)
                &&& was_measured(spans_of(more).last(), start, end)
                &&& invalid_of(more) == invalid_of(pairs)
            } else {
                &&& spans_of(more) == spans_of(pairs)
                &&& invalid_of(more).len() == invalid_of(pairs).len() + 1
                &&& invalid_of(more).drop_last() == invalid_of(pairs)
                &&& invalid_of(more).last().start == start
                &&& invalid_of(more).last().end == end
                &&& invalid_of(more).last().reason == "end counter is lower than start counter"@
            }
        }),
{
    let more = pairs.push((start, end));
    assert(more.drop_last() =~= pairs);
    if no_counter_fell(start.counters, end.counters) {
        assert(spans_of(more).drop_last() =~= spans_of(pairs));
    } else {
        assert(invalid_of(more).drop_last() =~= invalid_of(pairs));
    }
}

/// Whether a marker has this suite and label.
pub open spec fn is_named(event: EventView, suite: Seq<char>, span_label: Seq<char>) -> bool {
    event.suite == suite && event.span_label == span_label
}

proof fn lemma_last_open_is(open: Seq<EventView>, event: EventView, upto: int, at: int)
    requires
        0 <= at < upto <= open.len(),
        is_named(open[at], event.suite, event.span_label),
        forall|i: int|
            at < i < upto ==> !is_named(#[trigger] open[i], event.suite, event.span_label),
    ensures
        last_open(open, event, upto) == Some(at),
    decreases upto,
{
    if upto - 1 > at {
        assert(!is_named(open[upto - 1], event.suite, event.span_label));
        lemma_last_open_is(open, event, upto - 1, at);
    }
}

proof fn lemma_last_open_is_none(open: Seq<EventView>, event: EventView, upto: int)
    requires
        0 <= upto <= open.len(),
        forall|i: int|
            0 <= i < upto ==> !is_named(#[trigger] open[i], event.suite, event.span_label),
    ensures
        last_open(open, event, upto) == None::<int>,
    decreases upto,
{
    if upto > 0 {
        assert(!is_named(open[upto - 1], event.suite, event.span_label));
        lemma_last_open_is_none(open, event, upto - 1);
    }
}

proof fn lemma_last_open_bounds(open: Seq<EventView>, event: EventView, upto: int)
    requires
        0 <= upto <= open.len(),
    ensures
        last_open(open, event, upto) matches Some(at) ==> 0 <= at < upto && is_named(
            open[at],
            event.suite,
            event.span_label,
        ),
    decreases upto,
{
    if upto > 0 {
        lemma_last_open_bounds(open, event, upto - 1);
    }
}

/// Whether `open` ends in `start` followed by markers of other spans alone.
spec fn waits_last(open: Seq<EventView>, at: int, start: EventView) -> bool {
    &&& 0 <= at < open.len()
    &&& open[at] == start
    &&& forall|i: int|
        at < i < open.len() ==> !is_named(#[trigger] open[i], start.suite, start.span_label)
}

proof fn lemma_start_keeps_waiting(
    before: Seq<EventView>,
    start: EventView,
    others: Seq<EventView>,
) -> (at: int)
    requires
        start.kind is Start,
        forall|i: int|
            0 <= i < others.len() ==> !is_named(
                #[trigger] others[i],
                start.suite,
                start.span_label,
            ),
    ensures
        waits_last(pairing(before.push(start) + others).open, at, start),
    decreases others.len(),
{
    if others.len() == 0 {
        assert(before.push(start) + others =~= before.push(start));
        assert(before.push(start).drop_last() =~= before);
        pairing(before).open.len() as int
    } else {
        let shorter = others.drop_last();
        let last = others.last();
        assert forall|i: int| 0 <= i < shorter.len() implies !is_named(
            #[trigger] shorter[i],
            start.suite,
            start.span_label,
        ) by {
            assert(!is_named(others[i], start.suite, start.span_label));
        }
        let at = lemma_start_keeps_waiting(before, start, shorter);
        let all = before.push(start) + others;
        assert(all.drop_last() =~= before.push(start) + shorter);
        assert(all.last() == last);
        assert(!is_named(others[others.len() - 1], start.suite, start.span_label));
        let open = pairing(before.push(start) + shorter).open;
        let next = pairing(all).open;
        lemma_last_open_bounds(open, last, open.len() as int);
        match last.kind {
            BenchmarkEventKind::Start => {
                assert forall|i: int| at < i < next.len() implies !is_named(
                    #[trigger] next[i],
                    start.suite,
                    start.span_label,
                ) by {
                    if i < open.len() {
                        assert(next[i] == open[i]);
                    }
                }
                at
            },
            BenchmarkEventKind::End => {
                match last_open(open, last, open.len() as int) {
                    None => at,
                    Some(k) => {
                        assert(k != at);
                        let place = if k < at {
                            at - 1
                        } else {
                            at
                        };
                        assert(next == open.remove(k));
                        assert forall|i: int| place < i < next.len() implies !is_named(
                            #[trigger] next[i],
                            start.suite,
                            start.span_label,
                        ) by {
                            let old = if i < k {
                                i
                            } else {
                                i + 1
                            };
                            assert(next[i] == open[old]);
                        }
                        place
                    },
                }
            },
        }
    }
}

/// An end closes the latest start of its suite and label that still waits: whatever came before
/// that start, and whatever markers of other spans stand between the two.
pub proof fn lemma_end_closes_the_latest_start(
    before: Seq<EventView>,
    start: EventView,
    others: Seq<EventView>,
    end: EventView,
)
    requires
        start.kind is Start,
        end.kind is End,
        start.suite == end.suite,
        start.span_label == end.span_label,
        forall|i: int|
            0 <= i < others.len() ==> !is_named(
                #[trigger] others[i],
                start.suite,
                start.span_label,
            ),
    ensures
        ({
            let open = pairing(before.push(start) + others);
            let closed = pairing((before.push(start) + others).push(end));
            &&& closed.pairs == open.pairs.push((start, end))
            &&& closed.ends == open.ends
            &&& closed.open.len() == open.open.len() - 1
            &&& open.open.contains(start)
        }),
{
    let events = before.push(start) + others;
    let at = lemma_start_keeps_waiting(before, start, others);
    let open = pairing(events).open;
    assert(events.push(end).drop_last() =~= events);
    assert(waits_last(open, at, start));
    lemma_last_open_is(open, end, open.len() as int, at);
    assert(open[at] == start);
}

/// A start and an end that follow each other leave everything else as it was.
pub proof fn lemma_empty_span_changes_nothing_else(
    before: Seq<EventView>,
    start: EventView,
    end: EventView,
)
    requires
        start.kind is Start,
        end.kind is End,
        start.suite == end.suite,
        start.span_label == end.span_label,
    ensures
        ({
            let earlier = pairing(before);
            let later = pairing(before.push(start).push(end));
            &&& later.pairs == earlier.pairs.push((start, end))
            &&& later.ends == earlier.ends
            &&& later.open == earlier.open
        }),
{
    let others = Seq::<EventView>::empty();
    lemma_end_closes_the_latest_start(before, start, others, end);
    assert(before.push(start) + others =~= before.push(start));
    assert(before.push(start).push(end).drop_last() =~= before.push(start));
    assert(before.push(start).drop_last() =~= before);
    let open = pairing(before).open;
    assert(pairing(before.push(start)).open == open.push(start));
    lemma_last_open_is(open.push(start), end, open.len() as int + 1, open.len() as int);
    assert(open.push(start).remove(open.len() as int) =~= open);
}

/// A start waits for its end; an end of a suite and label of which no start was read stays
/// without a partner.
pub proof fn lemma_marker_without_partner(before: Seq<EventView>, event: EventView)
    ensures
        event.kind is Start ==> {
            &&& pairing(before.push(event)).open == pairing(before).open.push(event)
            &&& pairing(before.push(event)).pairs == pairing(before).pairs
            &&& pairing(before.push(event)).ends == pairing(before).ends
        },
        event.kind is End && (forall|i: int|
            #![trigger before[i]]
            0 <= i < before.len() && before[i].kind is Start ==> !is_named(
                before[i],
                event.suite,
                event.span_label,
            )) ==> {
            &&& pairing(before.push(event)).open == pairing(before).open
            &&& pairing(before.push(event)).pairs == pairing(before).pairs
            &&& pairing(before.push(event)).ends == pairing(before).ends.push(event)
        },
{
    assert(before.push(event).drop_last() =~= before);
    if event.kind is End && (forall|i: int|
        #![trigger before[i]]
        0 <= i < before.len() && before[i].kind is Start ==> !is_named(
            before[i],
            event.suite,
            event.span_label,
        )) {
        let open = pairing(before).open;
        assert forall|i: int| 0 <= i < open.len() implies !is_named(
            #[trigger] open[i],
            event.suite,
            event.span_label,
        ) by {
            lemma_open_is_read(before, i);
            let k = choose|k: int|
                0 <= k < before.len() && #[trigger] before[k] == open[i] && before[k].kind is Start;
            assert(before[k] == open[i]);
        }
        lemma_last_open_is_none(open, event, open.len() as int);
    }
}

proof fn lemma_open_is_read(events: Seq<EventView>, at: int)
    requires
        0 <= at < pairing(events).open.len(),
    ensures
        exists|k: int|
            0 <= k < events.len() && #[trigger] events[k] == pairing(events).open[at]
                && events[k].kind is Start,
    decreases events.len(),
{
    let shorter = events.drop_last();
    let last = events.last();
    let open = pairing(shorter).open;
    let next = pairing(events).open;
    lemma_last_open_bounds(open, last, open.len() as int);
    if last.kind is Start && at == open.len() {
        assert(events[events.len() - 1] == next[at]);
    } else {
        let old = match last.kind {
            BenchmarkEventKind::Start => at,
            BenchmarkEventKind::End => match last_open(open, last, open.len() as int) {
                Some(k) => if at < k {
                    at
                } else {
                    at + 1
                },
                None => at,
            },
        };
        assert(next[at] == open[old]);
        lemma_open_is_read(shorter, old);
        let k = choose|k: int|
            0 <= k < shorter.len() && #[trigger] shorter[k] == open[old] && shorter[k].kind is Start;
        assert(events[k] == next[at]);
    }
}

/// Every marker ends up in exactly one place: as the start or the end of a pair, or without a
/// partner.
pub proof fn lemma_markers_are_conserved(events: Seq<EventView>, event: EventView)
    ensures
        ({
            let state = pairing(events);
            events.to_multiset().count(event) == state.pairs.map_values(
                |pair: (EventView, EventView)| pair.0,
            ).to_multiset().count(event) + state.pairs.map_values(
                |pair: (EventView, EventView)| pair.1,
            ).to_multiset().count(event) + state.ends.to_multiset().count(event)
                + state.open.to_multiset().count(event)
        }),
    decreases events.len(),
{
    broadcast use vstd::seq_lib::group_to_multiset_ensures;

    let first = |pair: (EventView, EventView)| pair.0;
    let second = |pair: (EventView, EventView)| pair.1;
    let state = pairing(events);
    if events.len() == 0 {
        assert(state.pairs.map_values(first) =~= Seq::<EventView>::empty());
        assert(state.pairs.map_values(second) =~= Seq::<EventView>::empty());
        assert(events =~= Seq::<EventView>::empty());
    } else {
        let shorter = events.drop_last();
        let last = events.last();
        let before = pairing(shorter);
        lemma_markers_are_conserved(shorter, event);
        assert(events =~= shorter.push(last));
        lemma_last_open_bounds(before.open, last, before.open.len() as int);
        if last.kind is End {
            if let Some(at) = last_open(before.open, last, before.open.len() as int) {
                let pair = (before.open[at], last);
                assert(state.pairs.map_values(first) =~= before.pairs.map_values(first).push(
                    before.open[at],
                ));
                assert(state.pairs.map_values(second) =~= before.pairs.map_values(second).push(
                    last,
                ));
                assert(before.open.contains(before.open[at]));
                assert(before.open.to_multiset().count(before.open[at]) > 0);
                assert(state.open.to_multiset() == before.open.to_multiset().remove(
                    before.open[at],
                ));
            }
        }
    }
}

/// Whether a report is that of these markers, as pairing returns it.
pub open spec fn is_report_of(
    report: BenchmarkSpanReport,
    events: Seq<RawBenchmarkEvent>,
) -> bool {
    let state = pairing(event_views(events));
    &&& span_views(report.spans@) == spans_of(state.pairs)
    &&& invalid_views(report.invalid_spans@) == invalid_of(state.pairs)
    &&& unpaired_views(report.unpaired_markers@) == unpaired_in(state)
}

/// Two markers stand behind every span and every invalid span, one behind every marker without a
/// partner, and none is left over.
pub proof fn lemma_report_accounts_for_markers(
    report: BenchmarkSpanReport,
    events: Seq<RawBenchmarkEvent>,
)
    requires
        is_report_of(report, events),
    ensures
        2 * report.spans@.len() + 2 * report.invalid_spans@.len() + report.unpaired_markers@.len()
            == events.len(),
        forall|i: int| #![trigger report.spans@[i]]
            0 <= i < report.spans@.len() ==> {
                let span = report.spans@[i];
                &&& span.end.instructions == span.start.instructions + span.delta.instructions
                &&& span.end.heap_bytes == span.start.heap_bytes + span.delta.heap_bytes
                &&& span.end.memory_bytes == span.start.memory_bytes + span.delta.memory_bytes
                &&& span.end.total_allocation == span.start.total_allocation
                    + span.delta.total_allocation
            },
{
    let state = pairing(event_views(events));
    let views = span_views(report.spans@);
    lemma_every_marker_counts(event_views(events));
    lemma_pairs_give_spans_unless_a_counter_fell(state.pairs);
    lemma_sorted_is_permutation(state.open, event_before());
    assert(views.len() == report.spans@.len());
    assert(invalid_views(report.invalid_spans@).len() == report.invalid_spans@.len());
    assert(unpaired_views(report.unpaired_markers@).len() == report.unpaired_markers@.len());
    assert forall|i: int| #![trigger report.spans@[i]] 0 <= i < report.spans@.len() implies ({
        let span = report.spans@[i];
        &&& span.end.instructions == span.start.instructions + span.delta.instructions
        &&& span.end.heap_bytes == span.start.heap_bytes + span.delta.heap_bytes
        &&& span.end.memory_bytes == span.start.memory_bytes + span.delta.memory_bytes
        &&& span.end.total_allocation == span.start.total_allocation + span.delta.total_allocation
    }) by {
        assert(views[i] == report.spans@[i]@);
        lemma_span_is_measured(state.pairs, i);
    }
}

proof fn lemma_span_is_measured(pairs: Seq<(EventView, EventView)>, at: int)
    requires
        0 <= at < spans_of(pairs).len(),
    ensures
        exists|i: int|
            0 <= i < pairs.len() && was_measured(
                spans_of(pairs)[at],
                (#[trigger] pairs[i]).0,
                pairs[i].1,
            ),
    decreases pairs.len(),
{
    let shorter = pairs.drop_last();
    if at < spans_of(shorter).len() {
        lemma_span_is_measured(shorter, at);
        assert(spans_of(pairs)[at] == spans_of(shorter)[at]);
        let i = choose|i: int|
            0 <= i < shorter.len() && was_measured(
                spans_of(shorter)[at],
                (#[trigger] shorter[i]).0,
                shorter[i].1,
            );
        assert(pairs[i] == shorter[i]);
    } else {
        assert(was_measured(
            spans_of(pairs)[at],
            pairs[pairs.len() - 1].0,
            pairs[pairs.len() - 1].1,
        ));
    }
}

/// Markers without a partner are reported with the ends first, as they were read, and the starts
/// behind, by suite and label.
pub proof fn lemma_unpaired_markers_stand_in_order(events: Seq<EventView>)
    ensures
        ({
            let state = pairing(events);
            let found = unpaired_in(state);
            let ends = state.ends.len() as int;
            &&& found.len() == state.ends.len() + state.open.len()
            &&& forall|i: int|
                0 <= i < ends ==> (#[trigger] found[i]).event == state.ends[i] && found[i].kind
                    == UnpairedBenchmarkMarkerKind::End
            &&& forall|i: int|
                ends <= i < found.len() ==> (#[trigger] found[i]).kind
                    == UnpairedBenchmarkMarkerKind::Start && state.open.contains(found[i].event)
            &&& forall|i: int, j: int|
                #![trigger found[i], found[j]]
                ends <= i < j < found.len() ==> {
                    let (a, b) = (found[i].event, found[j].event);
                    ||| bytes_less(encode_utf8(a.suite), encode_utf8(b.suite))
                    ||| a.suite == b.suite && bytes_less(
                        encode_utf8(a.span_label),
                        encode_utf8(b.span_label),
                    )
                    ||| a.suite == b.suite && a.span_label == b.span_label
                }
        }),
{
    broadcast use vstd::seq_lib::group_to_multiset_ensures;
    broadcast use vstd::utf8::encode_utf8_decode_utf8;

    let state = pairing(events);
    let found = unpaired_in(state);
    let ends = state.ends.len() as int;
    let sorted = sorted_by(state.open, event_before());
    lemma_sorted_is_permutation(state.open, event_before());
    lemma_event_order();
    lemma_sorted_is_in_order(state.open, event_before());
    assert forall|i: int| ends <= i < found.len() implies (#[trigger] found[i]).kind
        == UnpairedBenchmarkMarkerKind::Start && state.open.contains(found[i].event) by {
        assert(found[i].event == sorted[i - ends]);
        assert(sorted.contains(sorted[i - ends]));
        assert(sorted.to_multiset().count(sorted[i - ends]) > 0);
    }
    assert forall|i: int, j: int|
        #![trigger found[i], found[j]]
        ends <= i < j < found.len() implies ({
        let (a, b) = (found[i].event, found[j].event);
        ||| bytes_less(encode_utf8(a.suite), encode_utf8(b.suite))
        ||| a.suite == b.suite && bytes_less(encode_utf8(a.span_label), encode_utf8(b.span_label))
        ||| a.suite == b.suite && a.span_label == b.span_label
    }) by {
        let (a, b) = (found[i].event, found[j].event);
        assert(sorted[i - ends] == a && sorted[j - ends] == b);
        assert(!event_before()(sorted[j - ends], sorted[i - ends]));
        assert(vstd::utf8::decode_utf8(encode_utf8(a.suite)) == a.suite);
        assert(vstd::utf8::decode_utf8(encode_utf8(b.suite)) == b.suite);
        assert(vstd::utf8::decode_utf8(encode_utf8(a.span_label)) == a.span_label);
        assert(vstd::utf8::decode_utf8(encode_utf8(b.span_label)) == b.span_label);
        lemma_bytes_less_total(encode_utf8(a.suite), encode_utf8(b.suite));
        lemma_bytes_less_total(encode_utf8(a.span_label), encode_utf8(b.span_label));
    }
}

proof fn lemma_event_order()
    ensures
        is_strict_weak_order(event_before()),
{
    broadcast use vstd::utf8::encode_utf8_decode_utf8;

    let before = event_before();
    assert forall|a: EventView| !#[trigger] before(a, a) by {
        lemma_bytes_less_irreflexive(encode_utf8(a.suite));
        lemma_bytes_less_irreflexive(encode_utf8(a.span_label));
    }
    assert forall|a: EventView, b: EventView, c: EventView|
        #![trigger before(a, b), before(b, c)]
        before(a, b) && before(b, c) implies before(a, c) by {
        if bytes_less(encode_utf8(a.suite), encode_utf8(b.suite)) {
            if bytes_less(encode_utf8(b.suite), encode_utf8(c.suite)) {
                lemma_bytes_less_transitive(
                    encode_utf8(a.suite),
                    encode_utf8(b.suite),
                    encode_utf8(c.suite),
                );
            }
        } else if !bytes_less(encode_utf8(b.suite), encode_utf8(c.suite)) {
            lemma_bytes_less_transitive(
                encode_utf8(a.span_label),
                encode_utf8(b.span_label),
                encode_utf8(c.span_label),
            );
        }
    }
    assert forall|a: EventView, b: EventView, c: EventView|
        #![trigger before(a, c), before(a, b)]
        before(a, c) implies before(a, b) || before(b, c) by {
        assert(vstd::utf8::decode_utf8(encode_utf8(a.suite)) == a.suite);
        assert(vstd::utf8::decode_utf8(encode_utf8(b.suite)) == b.suite);
        assert(vstd::utf8::decode_utf8(encode_utf8(a.span_label)) == a.span_label);
        assert(vstd::utf8::decode_utf8(encode_utf8(b.span_label)) == b.span_label);
        lemma_bytes_less_total(encode_utf8(a.suite), encode_utf8(b.suite));
        lemma_bytes_less_total(encode_utf8(a.span_label), encode_utf8(b.span_label));
        if bytes_less(encode_utf8(b.suite), encode_utf8(a.suite)) && bytes_less(
            encode_utf8(a.suite),
            encode_utf8(c.suite),
        ) {
            lemma_bytes_less_transitive(
                encode_utf8(b.suite),
                encode_utf8(a.suite),
                encode_utf8(c.suite),
            );
        }
        if bytes_less(encode_utf8(b.span_label), encode_utf8(a.span_label)) && bytes_less(
            encode_utf8(a.span_label),
            encode_utf8(c.span_label),
        ) {
            lemma_bytes_less_transitive(
                encode_utf8(b.span_label),
                encode_utf8(a.span_label),
                encode_utf8(c.span_label),
            );
        }
    }
}

} // verus!

//! Which lines of a log are markers, and what they say.

use vstd::prelude::*;
use vstd::string::*;
use super::markers::{
    counter_value, is_blank, is_prefixed, is_white_space, label_kind, lemma_pieces_append,
    lemma_pieces_plain, lines_of, marker_complaint, marker_of, parsed, pieces, position_of,
    suite_of, BenchmarkEventKind, BenchmarkEventSource, ConfigView, DerivationView,
};
use crate::text::{all_digits, decimal_value, digits_value};

verus! {

/// Whether a text does not hold a character.
pub open spec fn lacks(text: Seq<char>, character: char) -> bool {
    forall|i: int| 0 <= i < text.len() ==> #[trigger] text[i] != character
}

/// A text is cut at each separator: what stands behind the last one is the last piece, and a text
/// without separators is one piece.
pub proof fn lemma_text_is_cut_at_separators(head: Seq<char>, separator: char, tail: Seq<char>)
    requires
        lacks(tail, separator),
    ensures
        pieces(tail, separator) == seq![tail],
        pieces(head.push(separator) + tail, separator) == pieces(head, separator).push(tail),
{
    lemma_pieces_plain(tail, separator);
    lemma_pieces_append(head, separator, tail);
}

/// Lines end with a line feed, or a carriage return and a line feed; the last one may lack it, and
/// what is empty there is no line.
pub proof fn lemma_lines(text: Seq<char>, line: Seq<char>)
    requires
        text.len() == 0 || text.last() == '\n',
        lacks(line, '\n'),
    ensures
        lines_of(Seq::<char>::empty()) == Seq::<Seq<char>>::empty(),
        line.len() > 0 ==> lines_of(text + line) == lines_of(text).push(line),
        line.len() == 0 || line.last() != '\r' ==> lines_of((text + line).push('\n')) == lines_of(
            text,
        ).push(line),
        lines_of((text + line.push('\r')).push('\n')) == lines_of(text).push(line),
{
    let none = Seq::<char>::empty();
    let bare = |one: Seq<char>| super::markers::without_return(one);
    lemma_pieces_plain(none, '\n');
    assert(seq![none].drop_last().map_values(bare) =~= Seq::<Seq<char>>::empty());
    assert(lines_of(none) =~= Seq::<Seq<char>>::empty());
    lemma_lines_with(text, line);
    lemma_lines_with(text, line.push('\r'));
    if line.len() == 0 || line.last() != '\r' {
        assert(bare(line) == line);
    }
    assert(line.push('\r').drop_last() =~= line);
    assert(bare(line.push('\r')) == line);
}

proof fn lemma_lines_with(text: Seq<char>, line: Seq<char>)
    requires
        text.len() == 0 || text.last() == '\n',
        lacks(line, '\n'),
    ensures
        line.len() > 0 ==> lines_of(text + line) == lines_of(text).push(line),
        lines_of((text + line).push('\n')) == lines_of(text).push(
            super::markers::without_return(line),
        ),
{
    let none = Seq::<char>::empty();
    let bare = |one: Seq<char>| super::markers::without_return(one);
    let whole = text + line;
    let ended = whole.push('\n');
    lemma_pieces_append(whole, '\n', none);
    assert(ended + none =~= ended);
    let cut = pieces(whole, '\n');
    assert(pieces(ended, '\n') == cut.push(none));
    if text.len() == 0 {
        assert(whole =~= line);
        lemma_pieces_plain(line, '\n');
        lemma_pieces_plain(none, '\n');
        assert(text =~= none);
        assert(seq![none].drop_last().map_values(bare) =~= Seq::<Seq<char>>::empty());
        assert(lines_of(text) =~= Seq::<Seq<char>>::empty());
        assert(cut.drop_last().map_values(bare) =~= Seq::<Seq<char>>::empty());
        assert(cut.push(none).drop_last().map_values(bare) =~= seq![bare(line)]);
        if line.len() > 0 {
            assert(lines_of(whole) =~= seq![line]);
        }
        assert(lines_of(ended) =~= seq![bare(line)]);
    } else {
        let head = text.drop_last();
        assert(head.push('\n') =~= text);
        lemma_pieces_append(head, '\n', line);
        lemma_pieces_append(head, '\n', none);
        assert(text + none =~= text);
        let earlier = pieces(head, '\n');
        assert(cut == earlier.push(line));
        assert(pieces(text, '\n') == earlier.push(none));
        assert(earlier.push(none).drop_last() =~= earlier);
        assert(earlier.push(line).drop_last() =~= earlier);
        assert(lines_of(text) == earlier.map_values(bare));
        assert(cut.push(none).drop_last() =~= cut);
        assert(cut.map_values(bare) =~= earlier.map_values(bare).push(bare(line)));
    }
}

/// Whether a text consists of decimal digits, at least one.
pub open spec fn is_digits(text: Seq<char>) -> bool {
    &&& text.len() > 0
    &&& forall|i: int| 0 <= i < text.len() ==> '0' <= #[trigger] text[i] <= '9'
}

/// Whether a text is a number: decimal digits, with or without a plus before them.
pub open spec fn is_number(text: Seq<char>) -> bool {
    if text.len() > 0 && text[0] == '+' {
        is_digits(text.skip(1))
    } else {
        is_digits(text)
    }
}

/// A counter is a decimal number that fits: a digit behind others counts ten times what stands
/// before it and itself.
pub proof fn lemma_counters_are_decimal(text: Seq<char>, digit: char)
    ensures
        counter_value(text) is Some ==> is_number(text),
        is_number(text) ==> decimal_value(text) is Some && (counter_value(text) is Some
            <==> decimal_value(text)->0 <= 340_282_366_920_938_463_463_374_607_431_768_211_455),
        counter_value(text) matches Some(value) ==> decimal_value(text) == Some(value),
        '0' <= digit <= '9' ==> decimal_value(seq![digit]) == Some((digit as int - 48) as nat),
        '0' <= digit <= '9' && is_number(text) ==> decimal_value(text.push(digit)) == Some(
            (decimal_value(text)->0 * 10 + (digit as int - 48)) as nat,
        ),
{
    let digits = crate::text::unsigned_part(text);
    if text.len() > 0 && text[0] == '+' {
        assert(text.drop_first() =~= text.skip(1));
    }
    if decimal_value(text) is Some {
        assert forall|i: int| 0 <= i < digits.len() implies '0' <= #[trigger] digits[i] <= '9' by {
            assert(crate::text::is_digit(digits[i]));
        }
    }
    if is_number(text) {
        assert(all_digits(digits)) by {
            assert forall|i: int| 0 <= i < digits.len() implies crate::text::is_digit(
                #[trigger] digits[i],
            ) by {
                assert(is_digits(digits));
            }
        }
    }
    if '0' <= digit <= '9' {
        let one = seq![digit];
        assert(crate::text::unsigned_part(one) == one);
        assert(one.drop_last() =~= Seq::<char>::empty());
        assert(digits_value(one.drop_last()) == 0);
        assert(all_digits(one));
        if is_number(text) {
            let more = text.push(digit);
            let rest = crate::text::unsigned_part(more);
            if text[0] == '+' {
                assert(more.drop_first() =~= digits.push(digit));
            }
            assert(rest =~= digits.push(digit));
            assert(rest.drop_last() =~= digits);
            assert forall|i: int| 0 <= i < rest.len() implies crate::text::is_digit(
                #[trigger] rest[i],
            ) by {
                if i < digits.len() {
                    assert(rest[i] == digits[i]);
                    assert(crate::text::is_digit(digits[i]));
                }
            }
            assert(all_digits(rest));
        }
    }
}

/// A label starts a span when it ends in `:start`, ends one when it ends in `:end`, and the span is
/// called by what stands before, which is not empty.
pub proof fn lemma_labels_tell_kinds(stem: Seq<char>, label: Seq<char>)
    ensures
        stem.len() > 0 ==> label_kind(stem + ":start"@) == Some((stem, BenchmarkEventKind::Start)),
        stem.len() > 0 ==> label_kind(stem + ":end"@) == Some((stem, BenchmarkEventKind::End)),
        label_kind(label) matches Some((name, kind)) ==> name.len() > 0 && label == name + if kind
            == BenchmarkEventKind::Start {
            ":start"@
        } else {
            ":end"@
        },
{
    reveal_strlit(":start");
    reveal_strlit(":end");
    let (a, b) = (stem + ":start"@, stem + ":end"@);
    assert(a.skip(a.len() - 6) =~= ":start"@);
    assert(a.take(a.len() - 6) =~= stem);
    assert(b.skip(b.len() - 4) =~= ":end"@);
    assert(b.take(b.len() - 4) =~= stem);
    if stem.len() > 0 && b.len() > 6 {
        assert(b.skip(b.len() - 6)[5] == 'd');
    }
    if let Some((name, kind)) = label_kind(label) {
        if kind == BenchmarkEventKind::Start {
            assert(label =~= name + ":start"@);
        } else {
            assert(label =~= name + ":end"@);
        }
    }
}

proof fn lemma_position(text: Seq<char>, character: char, from: int, at: int)
    requires
        0 <= from <= at <= text.len(),
        forall|i: int| from <= i < at ==> text[i] != character,
        at < text.len() ==> text[at] == character,
    ensures
        position_of(text, character, from) == at,
    decreases at - from,
{
    if from < at {
        lemma_position(text, character, from + 1, at);
    }
}

/// A suite is what stands before the first slash of a label, or all of a label without one or with
/// nothing before it; a fixed suite is always the same.
pub proof fn lemma_suites(head: Seq<char>, rest: Seq<char>, suite: Seq<char>, label: Seq<char>)
    requires
        head.len() > 0,
        lacks(head, '/'),
    ensures
        suite_of(DerivationView::FirstPathSegment, head) == head,
        suite_of(DerivationView::FirstPathSegment, head.push('/') + rest) == head,
        label.len() == 0 || label[0] == '/' ==> suite_of(DerivationView::FirstPathSegment, label)
            == label,
        suite_of(DerivationView::Fixed(suite), label) == suite,
{
    let whole = head.push('/') + rest;
    let end = head.len() as int;
    lemma_position(head, '/', 0, end);
    assert(head.take(end) =~= head);
    assert forall|i: int| 0 <= i < end implies whole[i] != '/' by {
        assert(whole[i] == head[i]);
    }
    assert(whole[end] == '/');
    lemma_position(whole, '/', 0, end);
    assert(whole.take(end) =~= head);
}

/// The six columns of a marker, with bars between them.
pub open spec fn marker_line(
    prefix: Seq<char>,
    label: Seq<char>,
    instructions: Seq<char>,
    heap: Seq<char>,
    memory: Seq<char>,
    allocation: Seq<char>,
) -> Seq<char> {
    prefix.push('|') + label.push('|') + instructions.push('|') + heap.push('|') + memory.push('|')
        + allocation
}

/// Whether a column is a counter: a decimal number that fits.
pub open spec fn is_counter(column: Seq<char>) -> bool {
    is_number(column) && decimal_value(column)->0
        <= 340_282_366_920_938_463_463_374_607_431_768_211_455
}

proof fn lemma_six_columns(
    prefix: Seq<char>,
    label: Seq<char>,
    instructions: Seq<char>,
    heap: Seq<char>,
    memory: Seq<char>,
    allocation: Seq<char>,
)
    requires
        lacks(prefix, '|'),
        lacks(label, '|'),
        lacks(instructions, '|'),
        lacks(heap, '|'),
        lacks(memory, '|'),
        lacks(allocation, '|'),
    ensures
        pieces(marker_line(prefix, label, instructions, heap, memory, allocation), '|') == seq![
            prefix,
            label,
            instructions,
            heap,
            memory,
            allocation,
        ],
{
    let two = prefix.push('|') + label;
    let three = two.push('|') + instructions;
    let four = three.push('|') + heap;
    let five = four.push('|') + memory;
    let six = five.push('|') + allocation;
    lemma_pieces_plain(prefix, '|');
    lemma_pieces_append(prefix, '|', label);
    lemma_pieces_append(two, '|', instructions);
    lemma_pieces_append(three, '|', heap);
    lemma_pieces_append(four, '|', memory);
    lemma_pieces_append(five, '|', allocation);
    assert(six =~= marker_line(prefix, label, instructions, heap, memory, allocation));
    assert(pieces(six, '|') =~= seq![prefix, label, instructions, heap, memory, allocation]);
}

/// A line of six columns is a marker exactly when its prefix is configured, its label starts or
/// ends a span and its other columns are counters. It then says what its columns say.
pub proof fn lemma_markers_have_six_columns(
    prefix: Seq<char>,
    label: Seq<char>,
    instructions: Seq<char>,
    heap: Seq<char>,
    memory: Seq<char>,
    allocation: Seq<char>,
    source_line: int,
    source: BenchmarkEventSource,
    config: ConfigView,
)
    requires
        lacks(prefix, '|'),
        lacks(label, '|'),
        lacks(instructions, '|'),
        lacks(heap, '|'),
        lacks(memory, '|'),
        lacks(allocation, '|'),
    ensures
        ({
            let line = marker_line(prefix, label, instructions, heap, memory, allocation);
            marker_complaint(line, config) is None <==> {
                &&& config.prefixes.contains(prefix)
                &&& label_kind(label) is Some
                &&& is_counter(instructions)
                &&& is_counter(heap)
                &&& is_counter(memory)
                &&& is_counter(allocation)
            }
        }),
        ({
            let line = marker_line(prefix, label, instructions, heap, memory, allocation);
            let event = marker_of(line, source_line, source, config);
            marker_complaint(line, config) is None ==> {
                &&& event.prefix == prefix
                &&& event.label == label
                &&& Some((event.span_label, event.kind)) == label_kind(label)
                &&& event.suite == suite_of(config.suite_derivation, event.span_label)
                &&& Some(event.counters.instructions as nat) == decimal_value(instructions)
                &&& Some(event.counters.heap_bytes as nat) == decimal_value(heap)
                &&& Some(event.counters.memory_bytes as nat) == decimal_value(memory)
                &&& Some(event.counters.total_allocation as nat) == decimal_value(allocation)
                &&& event.source_line == source_line
                &&& event.source == source
            }
        }),
{
    lemma_six_columns(prefix, label, instructions, heap, memory, allocation);
    lemma_counters_are_decimal(instructions, '0');
    lemma_counters_are_decimal(heap, '0');
    lemma_counters_are_decimal(memory, '0');
    lemma_counters_are_decimal(allocation, '0');
    if label.len() == 0 {
        lemma_labels_tell_kinds(label, label);
    }
}

/// Whether a line starts with a configured prefix and a bar.
pub open spec fn starts_with_prefix(line: Seq<char>, prefixes: Seq<Seq<char>>) -> bool {
    exists|i: int|
        0 <= i < prefixes.len() && (#[trigger] prefixes[i]).len() < line.len() && line.take(
            prefixes[i].len() as int,
        ) == prefixes[i] && line[prefixes[i].len() as int] == '|'
}

/// Whether a character is white space, by its number.
pub open spec fn is_space(character: char) -> bool {
    ||| character == ' '
    ||| '\t' <= character <= '\r'
    ||| character == '\u{85}'
    ||| character == '\u{a0}'
    ||| character == '\u{1680}'
    ||| '\u{2000}' <= character <= '\u{200a}'
    ||| character == '\u{2028}'
    ||| character == '\u{2029}'
    ||| character == '\u{202f}'
    ||| character == '\u{205f}'
    ||| character == '\u{3000}'
}

proof fn lemma_prefixed(line: Seq<char>, prefixes: Seq<Seq<char>>)
    ensures
        is_prefixed(line, prefixes) <==> starts_with_prefix(line, prefixes),
{
    if is_prefixed(line, prefixes) {
        let i = choose|i: int|
            0 <= i < prefixes.len() && ((#[trigger] prefixes[i]) + seq!['|']).is_prefix_of(line);
        let start = prefixes[i] + seq!['|'];
        let end = prefixes[i].len() as int;
        assert(start =~= line.take(end + 1));
        assert(line.take(end) =~= prefixes[i]) by {
            assert forall|k: int| 0 <= k < end implies line.take(end)[k] == prefixes[i][k] by {
                assert(start[k] == line.take(end + 1)[k]);
            }
        }
        assert(start[end] == line.take(end + 1)[end]);
    }
    if starts_with_prefix(line, prefixes) {
        let i = choose|i: int|
            0 <= i < prefixes.len() && (#[trigger] prefixes[i]).len() < line.len() && line.take(
                prefixes[i].len() as int,
            ) == prefixes[i] && line[prefixes[i].len() as int] == '|';
        let end = prefixes[i].len() as int;
        assert(prefixes[i] + seq!['|'] =~= line.take(end + 1));
    }
}

proof fn lemma_spaces(line: Seq<char>)
    ensures
        is_blank(line) <==> forall|i: int| 0 <= i < line.len() ==> is_space(#[trigger] line[i]),
{
    assert forall|i: int| 0 <= i < line.len() implies is_white_space(#[trigger] line[i])
        == is_space(line[i]) by {
        let code = line[i] as u32;
        vstd::utf8::char_u32_cast(line[i], code);
    }
    if is_blank(line) {
        assert forall|i: int| 0 <= i < line.len() implies is_space(#[trigger] line[i]) by {
            assert(is_white_space(line[i]));
        }
    }
    if forall|i: int| 0 <= i < line.len() ==> is_space(#[trigger] line[i]) {
        assert forall|i: int| 0 <= i < line.len() implies is_white_space(#[trigger] line[i]) by {
            assert(is_space(line[i]));
        }
    }
}

/// Each line is taken for what it is: one with a configured prefix gives an event, or a malformed
/// marker with its fault; any other is ignored, unless reading is strict and it is not blank. The
/// line is counted from one.
pub proof fn lemma_every_line_is_judged(
    lines: Seq<Seq<char>>,
    line: Seq<char>,
    source: BenchmarkEventSource,
    config: ConfigView,
)
    ensures
        ({
            let before = parsed(lines, source, config);
            let after = parsed(lines.push(line), source, config);
            let number = lines.len() as int + 1;
            if starts_with_prefix(line, config.prefixes) {
                &&& after.ignored_line_count == before.ignored_line_count
                &&& match marker_complaint(line, config) {
                    None => {
                        &&& after.events == before.events.push(
                            marker_of(line, number, source, config),
                        )
                        &&& after.malformed_markers == before.malformed_markers
                    },
                    Some(fault) => {
                        &&& after.events == before.events
                        &&& after.malformed_markers.len() == before.malformed_markers.len() + 1
                        &&& after.malformed_markers.drop_last() == before.malformed_markers
                        &&& after.malformed_markers.last().source_line == number
                        &&& after.malformed_markers.last().source == source
                        &&& after.malformed_markers.last().line == line
                        &&& after.malformed_markers.last().reason == fault
                    },
                }
            } else if config.strict && exists|i: int|
                0 <= i < line.len() && !is_space(#[trigger] line[i]) {
                &&& after.ignored_line_count == before.ignored_line_count
                &&& after.events == before.events
                &&& after.malformed_markers.len() == before.malformed_markers.len() + 1
                &&& after.malformed_markers.drop_last() == before.malformed_markers
                &&& after.malformed_markers.last().source_line == number
                &&& after.malformed_markers.last().line == line
            } else {
                &&& after.ignored_line_count == before.ignored_line_count + 1
                &&& after.events == before.events
                &&& after.malformed_markers == before.malformed_markers
            }
        }),
        parsed(Seq::<Seq<char>>::empty(), source, config).events.len() == 0,
        parsed(Seq::<Seq<char>>::empty(), source, config).malformed_markers.len() == 0,
        parsed(Seq::<Seq<char>>::empty(), source, config).ignored_line_count == 0,
{
    let before = parsed(lines, source, config);
    let after = parsed(lines.push(line), source, config);
    assert(lines.push(line).drop_last() =~= lines);
    lemma_prefixed(line, config.prefixes);
    lemma_spaces(line);
    if after.malformed_markers.len() > before.malformed_markers.len() {
        assert(after.malformed_markers.drop_last() =~= before.malformed_markers);
    }
}

/// A malformed marker is told its first fault: the number of its columns, its prefix, an empty
/// label, a label of no kind, or else the first of its four counters that is empty or no number.
pub proof fn lemma_reasons(line: Seq<char>, config: ConfigView)
    ensures
        ({
            let columns = pieces(line, '|');
            let said = marker_complaint(line, config);
            let labeled = columns.len() == 6 && config.prefixes.contains(columns[0])
                && columns[1].len() > 0 && label_kind(columns[1]) is Some;
            &&& columns.len() != 6 ==> said == Some("expected six pipe-separated columns"@)
            &&& columns.len() == 6 && !config.prefixes.contains(columns[0]) ==> said == Some(
                "prefix is not configured"@,
            )
            &&& columns.len() == 6 && config.prefixes.contains(columns[0]) && columns[1].len() == 0
                ==> said == Some("label is empty"@)
            &&& columns.len() == 6 && config.prefixes.contains(columns[0]) && columns[1].len() > 0
                && label_kind(columns[1]) is None ==> said == Some(
                "label must end in :start or :end"@,
            )
            &&& labeled ==> is_fault(said, columns[2], "instructions"@) || counter_value(columns[2])
                is Some
            &&& labeled && counter_value(columns[2]) is Some ==> is_fault(
                said,
                columns[3],
                "heap_bytes"@,
            ) || counter_value(columns[3]) is Some
            &&& labeled && counter_value(columns[2]) is Some && counter_value(columns[3]) is Some
                ==> is_fault(said, columns[4], "memory_bytes"@) || counter_value(columns[4]) is Some
            &&& labeled && counter_value(columns[2]) is Some && counter_value(columns[3]) is Some
                && counter_value(columns[4]) is Some ==> is_fault(
                said,
                columns[5],
                "total_allocation"@,
            ) || counter_value(columns[5]) is Some
        }),
{
}

/// Whether what is said is the fault of this column: that it is empty, or no number that fits.
pub open spec fn is_fault(said: Option<Seq<char>>, column: Seq<char>, name: Seq<char>) -> bool {
    &&& counter_value(column) is None
    &&& column.len() == 0 ==> said == Some(name + " counter is empty"@)
    &&& column.len() > 0 ==> said == Some(name + " counter is not an unsigned integer"@)
}

} // verus!

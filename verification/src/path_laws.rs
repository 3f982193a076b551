//! What the components of a path are, and how joining and parents act on them.

use vstd::prelude::*;
use crate::order::bytes_less;
use crate::paths::{
    components, components_less, file_name_of, is_absolute_path, is_inner_dot, is_within, joined,
    lemma_segment_end, lemma_spans, lemma_spans_from, parent_path, same_path, segment_end, spans, spans_from,
    stripped, with_name,
};

verus! {

/// Whether a text of bytes holds no separator.
pub open spec fn has_no_slash(name: Seq<u8>) -> bool {
    forall|i: int| 0 <= i < name.len() ==> #[trigger] name[i] != 47
}

proof fn lemma_segment_end_is(path: Seq<u8>, from: int, end: int)
    requires
        0 <= from <= end <= path.len(),
        forall|i: int| from <= i < end ==> path[i] != 47,
        end < path.len() ==> path[end] == 47,
    ensures
        segment_end(path, from) == end,
    decreases end - from,
{
    if from < end {
        lemma_segment_end_is(path, from + 1, end);
    }
}

proof fn lemma_segment_end_bounds(path: Seq<u8>, from: int)
    requires
        0 <= from < path.len(),
        path[from] != 47,
    ensures
        from < segment_end(path, from) <= path.len(),
        segment_end(path, from) < path.len() ==> path[segment_end(path, from)] == 47,
        forall|i: int| from <= i < segment_end(path, from) ==> path[i] != 47,
{
    lemma_segment_end(path, from);
}

proof fn lemma_spans_split(base: Seq<u8>, whole: Seq<u8>, from: int)
    requires
        0 <= from <= base.len(),
        base.len() < whole.len(),
        forall|i: int| 0 <= i < base.len() ==> base[i] == whole[i],
        whole[base.len() as int] == 47,
    ensures
        spans_from(whole, from) == spans_from(base, from) + spans_from(whole, base.len() as int),
    decreases base.len() - from,
{
    let rest = spans_from(whole, base.len() as int);
    if from == base.len() {
        assert(spans_from(base, from) + rest =~= rest);
    } else if base[from] == 47 {
        lemma_spans_split(base, whole, from + 1);
    } else {
        lemma_segment_end_bounds(base, from);
        let end = segment_end(base, from);
        lemma_segment_end_is(whole, from, end);
        lemma_spans_split(base, whole, end);
        assert(is_inner_dot(base, from, end) == is_inner_dot(whole, from, end));
        if !is_inner_dot(base, from, end) {
            assert(spans_from(whole, from) =~= seq![(from, end)] + spans_from(base, end) + rest);
            assert(spans_from(base, from) =~= seq![(from, end)] + spans_from(base, end));
            assert(spans_from(whole, from) =~= spans_from(base, from) + rest);
        }
    }
}

proof fn lemma_components_split(base: Seq<u8>, whole: Seq<u8>)
    requires
        0 < base.len() < whole.len(),
        forall|i: int| 0 <= i < base.len() ==> base[i] == whole[i],
        whole[base.len() as int] == 47,
    ensures
        spans(whole) == spans(base) + spans_from(whole, base.len() as int + 1),
        components(whole) == components(base) + spans_from(
            whole,
            base.len() as int + 1,
        ).map_values(|span: (int, int)| whole.subrange(span.0, span.1)),
{
    let rest = spans_from(whole, base.len() as int + 1);
    let part = |span: (int, int)| whole.subrange(span.0, span.1);
    assert(spans_from(whole, base.len() as int) == rest);
    assert(whole[0] == base[0]);
    if is_absolute_path(base) {
        lemma_spans_split(base, whole, 1);
        assert(spans(whole) =~= seq![(0int, 1int)] + spans_from(base, 1) + rest);
        assert(spans(whole) =~= spans(base) + rest);
    } else {
        lemma_spans_split(base, whole, 0);
    }
    lemma_spans(base);
    assert forall|i: int| 0 <= i < components(base).len() implies #[trigger] components(base)[i]
        == components(whole)[i] by {
        let span = spans(base)[i];
        assert(spans(whole)[i] == span);
        assert(base.subrange(span.0, span.1) =~= whole.subrange(span.0, span.1));
    }
    assert(components(whole) =~= components(base) + rest.map_values(part));
}

/// The components of the shortest paths: none of the empty one, the root of `/`, and a name alone
/// of itself.
pub proof fn lemma_components_of_short_paths(name: Seq<u8>)
    requires
        name.len() > 0,
        has_no_slash(name),
    ensures
        components(Seq::<u8>::empty()) == Seq::<Seq<u8>>::empty(),
        components(seq![47u8]) == seq![seq![47u8]],
        components(name) == seq![name],
{
    let (none, root) = (Seq::<u8>::empty(), seq![47u8]);
    assert(spans(none) =~= seq![]);
    assert(components(none) =~= seq![]);
    assert(spans_from(root, 1) =~= seq![]);
    assert(spans(root) =~= seq![(0int, 1int)]);
    assert(root.subrange(0, 1) =~= root);
    assert(components(root) =~= seq![root]);
    lemma_segment_end_is(name, 0, name.len() as int);
    assert(spans_from(name, name.len() as int) =~= seq![]);
    assert(spans(name) =~= seq![(0int, name.len() as int)]);
    assert(name.subrange(0, name.len() as int) =~= name);
    assert(components(name) =~= seq![name]);
}

/// Behind a slash, a name adds itself to the components of a path, an inner dot adds nothing, and
/// neither does a slash alone.
pub proof fn lemma_name_adds_a_component(path: Seq<u8>, name: Seq<u8>)
    requires
        path.len() > 0,
        has_no_slash(name),
    ensures
        components(path.push(47)) == components(path),
        components(path.push(47) + name) == if name.len() == 0 || name == seq![46u8] {
            components(path)
        } else {
            components(path).push(name)
        },
{
    let slash = path.push(47);
    let whole = slash + name;
    let from = path.len() as int + 1;
    lemma_components_split(path, slash);
    assert(spans_from(slash, from) =~= seq![]);
    assert(components(slash) =~= components(path));
    if name.len() == 0 {
        assert(whole =~= slash);
    } else {
        lemma_components_split(path, whole);
        let end = whole.len() as int;
        assert forall|i: int| from <= i < end implies whole[i] != 47 by {
            assert(whole[i] == name[i - from]);
        }
        lemma_segment_end_is(whole, from, end);
        assert(spans_from(whole, end) =~= seq![]);
        assert(whole[from] == name[0]);
        if name == seq![46u8] {
            assert(is_inner_dot(whole, from, end));
            assert(components(whole) =~= components(path));
        } else {
            if is_inner_dot(whole, from, end) {
                assert(name =~= seq![46u8]);
            }
            assert(spans_from(whole, from) =~= seq![(from, end)]);
            assert(whole.subrange(from, end) =~= name);
            assert(components(whole) =~= components(path).push(name));
        }
    }
}

/// An absolute path replaces what it is joined to; a name is put behind it.
pub proof fn lemma_joining(base: Seq<u8>, path: Seq<u8>)
    ensures
        path.len() > 0 && path[0] == 47 ==> joined(base, path) == path,
        base.len() > 0 && path.len() > 0 && has_no_slash(path) && path != seq![46u8]
            ==> components(joined(base, path)) == components(base).push(path),
        base.len() == 0 ==> joined(base, path) == path,
{
    if base.len() == 0 {
        assert(base + path =~= path);
    }
    if base.len() > 0 && path.len() > 0 && has_no_slash(path) && path != seq![46u8] {
        if base.last() == 47 {
            let shorter = base.drop_last();
            assert(shorter.push(47) =~= base);
            if shorter.len() > 0 {
                lemma_name_adds_a_component(shorter, path);
            } else {
                assert(base =~= seq![47u8]);
                lemma_components_of_short_paths(path);
                let whole = base + path;
                let end = whole.len() as int;
                assert forall|i: int| 1 <= i < end implies whole[i] != 47 by {
                    assert(whole[i] == path[i - 1]);
                }
                lemma_segment_end_is(whole, 1, end);
                assert(whole[1] == path[0]);
                if is_inner_dot(whole, 1, end) {
                    assert(path =~= seq![46u8]);
                }
                assert(spans_from(whole, end) =~= seq![]);
                assert(spans_from(whole, 1) =~= seq![(1int, end)]);
                assert(spans(whole) =~= seq![(0int, 1int), (1int, end)]);
                assert(whole.subrange(0, 1) =~= seq![47u8]);
                assert(whole.subrange(1, end) =~= path);
                assert(components(whole) =~= seq![seq![47u8], path]);
            }
        } else {
            lemma_name_adds_a_component(base, path);
        }
    }
}

proof fn lemma_spans_of_beginning(path: Seq<u8>, from: int, k: int)
    requires
        0 <= from <= path.len(),
        0 <= k < spans_from(path, from).len(),
    ensures
        ({
            let end = spans_from(path, from)[k].1;
            &&& from < end <= path.len()
            &&& spans_from(path.take(end), from) == spans_from(path, from).take(k + 1)
        }),
    decreases path.len() - from,
{
    let all = spans_from(path, from);
    let end = all[k].1;
    let short = path.take(end);
    if path[from] == 47 {
        lemma_spans_of_beginning(path, from + 1, k);
        assert(short[from] == 47);
    } else {
        lemma_segment_end_bounds(path, from);
        let stop = segment_end(path, from);
        if is_inner_dot(path, from, stop) {
            lemma_spans_of_beginning(path, stop, k);
            assert forall|i: int| from <= i < stop implies short[i] != 47 by {
                assert(short[i] == path[i]);
            }
            assert(short[stop] == path[stop]);
            lemma_segment_end_is(short, from, stop);
        } else {
            let tail = spans_from(path, stop);
            assert(all =~= seq![(from, stop)] + tail);
            if k == 0 {
                assert(end == stop);
                assert forall|i: int| from <= i < stop implies short[i] != 47 by {
                    assert(short[i] == path[i]);
                }
                lemma_segment_end_is(short, from, stop);
                assert(spans_from(short, stop) =~= seq![]);
                assert(spans_from(short, from) =~= seq![(from, stop)]);
                assert(all.take(1) =~= seq![(from, stop)]);
            } else {
                assert(all[k] == tail[k - 1]);
                lemma_spans_of_beginning(path, stop, k - 1);
                assert forall|i: int| from <= i < stop implies short[i] != 47 by {
                    assert(short[i] == path[i]);
                }
                assert(short[stop] == path[stop]);
                lemma_segment_end_is(short, from, stop);
                assert(spans_from(short, from) =~= seq![(from, stop)] + tail.take(k));
                assert(all.take(k + 1) =~= seq![(from, stop)] + tail.take(k));
            }
        }
    }
}

/// The parent of a path has all of its components but the last; only the root and the empty path
/// have none.
pub proof fn lemma_parent_drops_the_last_component(path: Seq<u8>)
    ensures
        parent_path(path) is None <==> components(path).len() == 0 || components(path).last()
            == seq![47u8],
        parent_path(path) matches Some(parent) ==> components(parent) == components(
            path,
        ).drop_last(),
{
    let all = spans(path);
    lemma_spans(path);
    if all.len() > 0 {
        assert(components(path).last() == path.subrange(all.last().0, all.last().1));
    }
    if let Some(parent) = parent_path(path) {
        if all.len() == 1 {
            assert(spans(parent) =~= seq![]);
            assert(components(parent) =~= components(path).drop_last());
        } else {
            let at = all.len() - 2;
            let end = all[at].1;
            if is_absolute_path(path) {
                let inner = spans_from(path, 1);
                assert(all =~= seq![(0int, 1int)] + inner);
                if at == 0 {
                    assert(parent =~= seq![47u8]);
                    assert(spans_from(parent, 1) =~= seq![]);
                    assert(spans(parent) =~= all.take(1));
                } else {
                    assert(all[at] == inner[at - 1]);
                    lemma_spans_of_beginning(path, 1, at - 1);
                    assert(parent[0] == 47);
                    assert(spans(parent) =~= all.take(at + 1));
                }
            } else {
                lemma_spans_of_beginning(path, 0, at);
                assert(parent[0] == path[0]);
                assert(spans(parent) =~= all.take(at + 1));
            }
            assert forall|i: int| 0 <= i < components(parent).len() implies #[trigger] components(
                parent,
            )[i] == components(path)[i] by {
                let span = spans(parent)[i];
                assert(span == all[i]);
                if i < at {
                    assert(all[i].1 <= all[at].0);
                }
                assert(parent.subrange(span.0, span.1) =~= path.subrange(span.0, span.1));
            }
            assert(components(parent) =~= components(path).drop_last());
        }
    }
}

/// A path lies within another exactly when it begins with all of its components, and two paths
/// are the same when they have the same components.
pub proof fn lemma_containment(path: Seq<u8>, base: Seq<u8>)
    ensures
        is_within(path, base) <==> {
            &&& components(base).len() <= components(path).len()
            &&& forall|i: int|
                0 <= i < components(base).len() ==> #[trigger] components(base)[i] == components(
                    path,
                )[i]
        },
        same_path(path, base) <==> components(path) == components(base),
        is_within(path, path),
        is_within(path, base) && is_within(base, path) ==> same_path(path, base),
{
    let (a, b) = (components(path), components(base));
    if b.len() <= a.len() && (forall|i: int| 0 <= i < b.len() ==> #[trigger] b[i] == a[i]) {
        assert(a.take(b.len() as int) =~= b);
    }
    if is_within(path, base) {
        assert forall|i: int| 0 <= i < b.len() implies #[trigger] b[i] == a[i] by {
            assert(a.take(b.len() as int)[i] == a[i]);
        }
    }
    assert(a.take(a.len() as int) =~= a);
    if is_within(path, base) && is_within(base, path) {
        assert(a.take(b.len() as int) =~= a);
    }
}

/// A file name is the last component, unless that is the root, `.` or `..`; another name takes its
/// place behind the parent.
pub proof fn lemma_file_names(path: Seq<u8>, name: Seq<u8>)
    ensures
        file_name_of(path) is Some <==> components(path).len() > 0 && components(path).last()
            != seq![47u8] && components(path).last() != seq![46u8] && components(path).last()
            != seq![46u8, 46u8],
        file_name_of(path) matches Some(found) ==> found == components(path).last(),
        file_name_of(path) is Some && components(path).len() > 1 && name.len() > 0 && has_no_slash(
            name,
        ) && name != seq![46u8] ==> components(with_name(path, name)) == components(
            path,
        ).drop_last().push(name),
{
    lemma_parent_drops_the_last_component(path);
    if file_name_of(path) is Some && components(path).len() > 1 && name.len() > 0 && has_no_slash(
        name,
    ) && name != seq![46u8] {
        let parent = parent_path(path)->0;
        if parent.len() == 0 {
            lemma_components_of_short_paths(name);
            assert(parent =~= Seq::<u8>::empty());
            assert(components(parent).len() == 0);
        }
        lemma_joining(parent, name);
    }
}

proof fn lemma_names_start_without_slash(path: Seq<u8>, from: int)
    requires
        0 <= from,
    ensures
        forall|i: int|
            #![trigger spans_from(path, from)[i]]
            0 <= i < spans_from(path, from).len() ==> path[spans_from(path, from)[i].0] != 47,
    decreases path.len() - from,
{
    if from < path.len() {
        if path[from] == 47 {
            lemma_names_start_without_slash(path, from + 1);
            assert(spans_from(path, from) == spans_from(path, from + 1));
        } else {
            lemma_segment_end_bounds(path, from);
            let end = segment_end(path, from);
            lemma_names_start_without_slash(path, end);
            let (all, rest) = (spans_from(path, from), spans_from(path, end));
            if is_inner_dot(path, from, end) {
                assert(all == rest);
            } else {
                assert(all =~= seq![(from, end)] + rest);
                assert forall|i: int| #![trigger all[i]] 0 <= i < all.len() implies path[all[i].0]
                    != 47 by {
                    if i > 0 {
                        assert(all[i] == rest[i - 1]);
                    }
                }
            }
        }
    } else {
        assert(spans_from(path, from) =~= seq![]);
    }
}

/// The separator is a component of absolute paths alone, and only their first.
pub proof fn lemma_root_stands_first(path: Seq<u8>)
    ensures
        forall|i: int|
            #![trigger components(path)[i]]
            0 <= i < components(path).len() ==> (components(path)[i] == seq![47u8] <==> i == 0
                && path.len() > 0 && path[0] == 47),
{
    let all = spans(path);
    lemma_spans(path);
    lemma_names_start_without_slash(path, 0);
    lemma_names_start_without_slash(path, 1);
    assert forall|i: int| #![trigger components(path)[i]] 0 <= i < components(path).len() implies (
    components(path)[i] == seq![47u8] <==> i == 0 && path.len() > 0 && path[0] == 47) by {
        let span = all[i];
        assert(components(path)[i] == path.subrange(span.0, span.1));
        assert(path.subrange(span.0, span.1)[0] == path[span.0]);
        if is_absolute_path(path) {
            if i == 0 {
                assert(path.subrange(0, 1) =~= seq![47u8]);
            } else {
                assert(all[i] == spans_from(path, 1)[i - 1]);
                assert(path[span.0] != 47);
            }
        } else {
            assert(all[i] == spans_from(path, 0)[i]);
            assert(path[span.0] != 47);
        }
    }
}

/// Whether a component stands before another: the root first, then a dot, then two dots, then names
/// by their bytes.
pub open spec fn stands_before(left: Seq<u8>, right: Seq<u8>) -> bool {
    let root = seq![47u8];
    let here = seq![46u8];
    let above = seq![46u8, 46u8];
    ||| left == root && right != root
    ||| left == here && right != root && right != here
    ||| left == above && right != root && right != here && right != above
    ||| left != root && left != here && left != above && right != root && right != here && right
        != above && bytes_less(left, right)
}

/// The first component in which two paths differ decides their order; a path stands before those
/// that go on from it.
pub proof fn lemma_order_of_paths(left: Seq<Seq<u8>>, right: Seq<Seq<u8>>, at: int)
    requires
        0 <= at <= left.len(),
        at <= right.len(),
        forall|i: int| 0 <= i < at ==> left[i] == right[i],
        at < left.len() && at < right.len() ==> left[at] != right[at],
    ensures
        at < left.len() && at < right.len() ==> (components_less(left, right) <==> stands_before(
            left[at],
            right[at],
        )),
        at == left.len() ==> (components_less(left, right) <==> at < right.len()),
        at == right.len() ==> !components_less(left, right),
    decreases at,
{
    if at > 0 {
        let (a, b) = (left.drop_first(), right.drop_first());
        assert forall|i: int| 0 <= i < at - 1 implies a[i] == b[i] by {
            assert(left[i + 1] == right[i + 1]);
        }
        lemma_order_of_paths(a, b, at - 1);
    } else if left.len() > 0 && right.len() > 0 {
        let (a, b) = (left[0], right[0]);
        assert(seq![46u8].len() != seq![46u8, 46u8].len());
        assert(seq![47u8].len() != seq![46u8, 46u8].len());
        assert(seq![47u8][0] != seq![46u8][0]);
        crate::order::lemma_bytes_less_irreflexive(a);
    }
}

/// Places moved towards the start of a path.
pub open spec fn moved(places: Seq<(int, int)>, by: int) -> Seq<(int, int)> {
    places.map_values(|span: (int, int)| (span.0 - by, span.1 - by))
}

proof fn lemma_spans_of_piece(path: Seq<u8>, start: int, end: int, from: int)
    requires
        0 <= start <= from <= end <= path.len(),
        from < end ==> spans_from(path, from).len() > 0 && spans_from(path, from).last().1 == end,
        from == end ==> spans_from(path, from).len() == 0,
        from == start && from < end ==> path[from] == 47 || !is_inner_dot(
            path,
            from,
            segment_end(path, from),
        ),
    ensures
        spans_from(path.subrange(start, end), from - start) == moved(
            spans_from(path, from),
            start,
        ),
    decreases path.len() - from,
{
    let piece = path.subrange(start, end);
    let all = spans_from(path, from);
    lemma_spans_from(path, from);
    if from == end {
        assert(moved(all, start) =~= seq![]);
        assert(spans_from(piece, from - start) =~= seq![]);
    } else {
        assert(piece[from - start] == path[from]);
        if path[from] == 47 {
            assert(all == spans_from(path, from + 1));
            lemma_spans_from(path, from + 1);
            assert(all[all.len() - 1].0 >= from + 1);
            lemma_spans_of_piece(path, start, end, from + 1);
        } else {
            lemma_segment_end_bounds(path, from);
            let stop = segment_end(path, from);
            let rest = spans_from(path, stop);
            lemma_spans_from(path, stop);
            if is_inner_dot(path, from, stop) {
                assert(all == rest);
                assert(rest[rest.len() - 1].0 >= stop);
            } else {
                assert(all =~= seq![(from, stop)] + rest);
                if rest.len() > 0 {
                    assert(rest[rest.len() - 1].0 >= stop);
                    assert(rest.last() == all.last());
                } else {
                    assert(all.last() == (from, stop));
                }
            }
            assert(stop <= end);
            assert forall|i: int| from - start <= i < stop - start implies piece[i] != 47 by {
                assert(piece[i] == path[i + start]);
            }
            if stop < end {
                assert(piece[stop - start] == path[stop]);
            }
            lemma_segment_end_is(piece, from - start, stop - start);
            lemma_spans_of_piece(path, start, end, stop);
            assert(is_inner_dot(piece, from - start, stop - start) == is_inner_dot(
                path,
                from,
                stop,
            ));
            if !is_inner_dot(path, from, stop) {
                assert(moved(all, start) =~= seq![(from - start, stop - start)] + moved(
                    rest,
                    start,
                ));
            }
        }
    }
}

proof fn lemma_spans_start_at_components(path: Seq<u8>, from: int, at: int)
    requires
        0 <= from,
        0 <= at < spans_from(path, from).len(),
    ensures
        ({
            let start = spans_from(path, from)[at].0;
            &&& from <= start < path.len()
            &&& path[start] != 47
            &&& !is_inner_dot(path, start, segment_end(path, start))
            &&& spans_from(path, start) == spans_from(path, from).skip(at)
        }),
    decreases path.len() - from,
{
    let all = spans_from(path, from);
    if path[from] == 47 {
        lemma_spans_start_at_components(path, from + 1, at);
    } else {
        lemma_segment_end_bounds(path, from);
        let stop = segment_end(path, from);
        let rest = spans_from(path, stop);
        if is_inner_dot(path, from, stop) {
            lemma_spans_start_at_components(path, stop, at);
        } else {
            assert(all =~= seq![(from, stop)] + rest);
            if at == 0 {
                assert(all.skip(0) =~= all);
            } else {
                lemma_spans_start_at_components(path, stop, at - 1);
                assert(all[at] == rest[at - 1]);
                assert(all.skip(at) =~= rest.skip(at - 1));
            }
        }
    }
}

proof fn lemma_components_of_piece(path: Seq<u8>, start: int, end: int, places: Seq<(int, int)>)
    requires
        0 <= start <= end <= path.len(),
        spans(path.subrange(start, end)) == moved(places, start),
        forall|i: int|
            #![trigger places[i]]
            0 <= i < places.len() ==> start <= places[i].0 < places[i].1 <= end,
    ensures
        components(path.subrange(start, end)) == places.map_values(
            |span: (int, int)| path.subrange(span.0, span.1),
        ),
{
    let piece = path.subrange(start, end);
    let part = |span: (int, int)| path.subrange(span.0, span.1);
    assert forall|i: int| 0 <= i < places.len() implies #[trigger] components(piece)[i]
        == places.map_values(part)[i] by {
        let span = places[i];
        assert(spans(piece)[i] == (span.0 - start, span.1 - start));
        assert(piece.subrange(span.0 - start, span.1 - start) =~= path.subrange(span.0, span.1));
    }
    assert(components(piece) =~= places.map_values(part));
}

/// What is stripped of a path within a base are the components of the base; all others stay.
pub proof fn lemma_stripping(path: Seq<u8>, base: Seq<u8>)
    ensures
        stripped(path, base) is Some <==> is_within(path, base),
        stripped(path, base) matches Some(rest) ==> components(rest) == components(path).skip(
            components(base).len() as int,
        ),
{
    if is_within(path, base) {
        let all = spans(path);
        let skipped = components(base).len() as int;
        let rest = stripped(path, base)->0;
        let part = |span: (int, int)| path.subrange(span.0, span.1);
        lemma_spans(path);
        assert(components(path) =~= all.map_values(part));
        if skipped >= all.len() {
            assert(spans(rest) =~= seq![]);
            assert(components(rest) =~= components(path).skip(skipped));
        } else {
            let first = if is_absolute_path(path) {
                1
            } else {
                0
            };
            let inner = spans_from(path, first);
            let end = all.last().1;
            let lead = all.len() - inner.len();
            assert(lead == first);
            lemma_spans_from(path, first);
            let start = if skipped == 0 {
                0
            } else {
                all[skipped].0
            };
            let places = all.skip(skipped);
            if skipped == 0 {
                assert(path.take(end) =~= path.subrange(0, end));
                assert(places =~= all);
                if is_absolute_path(path) {
                    assert(all =~= seq![(0int, 1int)] + inner);
                    if inner.len() > 0 {
                        assert(inner.last() == all.last());
                        assert(inner[inner.len() - 1].0 >= 1);
                    }
                    lemma_spans_of_piece(path, 0, end, 1);
                    assert(rest[0] == path[0]);
                    assert(spans(rest) =~= moved(places, 0));
                } else {
                    lemma_segment_end_bounds(path, 0);
                    lemma_spans_of_piece(path, 0, end, 0);
                    assert(rest[0] == path[0]);
                }
            } else {
                let at = skipped - lead;
                assert(all[skipped] == inner[at]);
                lemma_spans_start_at_components(path, first as int, at);
                assert(places =~= inner.skip(at));
                assert(places.last() == all.last());
                lemma_spans_of_piece(path, start, end, start);
                assert(rest[0] == path[start]);
            }
            assert forall|i: int| #![trigger places[i]] 0 <= i < places.len() implies start
                <= places[i].0 < places[i].1 <= end by {
                assert(places[i] == all[i + skipped]);
                assert(i + skipped == all.len() - 1 || all[i + skipped].1 <= all[all.len() - 1].0);
                assert(i == 0 || all[skipped].1 <= all[i + skipped].0);
            }
            lemma_components_of_piece(path, start as int, end, places);
            assert(places.map_values(part) =~= components(path).skip(skipped));
        }
    }
}

} // verus!

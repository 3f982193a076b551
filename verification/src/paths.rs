//! POSIX paths as byte strings: components, joining, prefixes and parents.
//!
//! A path is its raw bytes. Two paths name the same location when their
//! components are equal: repeated separators and inner `.` segments do not
//! count.

use vstd::prelude::*;
use crate::order::{bytes_before, bytes_equal, bytes_less};

verus! {

/// The path separator.
pub const SEPARATOR: u8 = 47;

/// The byte of which `.` and `..` consist.
pub const DOT: u8 = 46;

/// Where the segment that starts at `from` ends.
pub open spec fn segment_end(path: Seq<u8>, from: int) -> int
    decreases path.len() - from,
{
    if from < 0 || from >= path.len() || path[from] == SEPARATOR {
        from
    } else {
        segment_end(path, from + 1)
    }
}

/// Whether the segment between `start` and `end` is an inner `.`, which names no component.
pub open spec fn is_inner_dot(path: Seq<u8>, start: int, end: int) -> bool {
    start > 0 && end - start == 1 && path[start] == DOT
}

/// Start and end of each component at or after `from`.
pub open spec fn spans_from(path: Seq<u8>, from: int) -> Seq<(int, int)>
    decreases path.len() - from,
    when 0 <= from
    via spans_from_decreases
{
    if from >= path.len() {
        seq![]
    } else if path[from] == SEPARATOR {
        spans_from(path, from + 1)
    } else {
        let end = segment_end(path, from);
        if is_inner_dot(path, from, end) {
            spans_from(path, end)
        } else {
            seq![(from, end)] + spans_from(path, end)
        }
    }
}

#[via_fn]
proof fn spans_from_decreases(path: Seq<u8>, from: int) {
    if from < path.len() && path[from] != SEPARATOR {
        lemma_segment_end(path, from);
    }
}

/// Start and end of each component: the root of an absolute path, then its segments.
pub open spec fn spans(path: Seq<u8>) -> Seq<(int, int)> {
    if is_absolute_path(path) {
        seq![(0int, 1int)] + spans_from(path, 1)
    } else {
        spans_from(path, 0)
    }
}

/// The components of `path`; an absolute path starts with the separator itself.
pub open spec fn components(path: Seq<u8>) -> Seq<Seq<u8>> {
    spans(path).map_values(|span: (int, int)| path.subrange(span.0, span.1))
}

/// Whether `path` starts at the root.
pub open spec fn is_absolute_path(path: Seq<u8>) -> bool {
    path.len() > 0 && path[0] == SEPARATOR
}

/// Whether both paths name the same location.
pub open spec fn same_path(left: Seq<u8>, right: Seq<u8>) -> bool {
    components(left) == components(right)
}

/// Whether `path` is `base` or lies below it.
pub open spec fn is_within(path: Seq<u8>, base: Seq<u8>) -> bool {
    components(base).is_prefix_of(components(path))
}

/// `path` resolved against `base`.
pub open spec fn joined(base: Seq<u8>, path: Seq<u8>) -> Seq<u8> {
    if is_absolute_path(path) {
        path
    } else if base.len() == 0 || base.last() == SEPARATOR {
        base + path
    } else {
        base.push(SEPARATOR) + path
    }
}

/// The path without its last component, for a path that has one below the root.
pub open spec fn parent_path(path: Seq<u8>) -> Option<Seq<u8>> {
    let all = spans(path);
    if all.len() == 0 || path.subrange(all.last().0, all.last().1) == seq![SEPARATOR] {
        None
    } else if all.len() == 1 {
        Some(seq![])
    } else {
        Some(path.take(all[all.len() - 2].1))
    }
}

/// Whether a component is a proper name, not the root, `.` or `..`.
pub open spec fn is_name(component: Seq<u8>) -> bool {
    component != seq![SEPARATOR] && component != seq![DOT] && component != seq![DOT, DOT]
}

/// The last component, when it is a proper name.
pub open spec fn file_name_of(path: Seq<u8>) -> Option<Seq<u8>> {
    let all = components(path);
    if all.len() > 0 && is_name(all.last()) {
        Some(all.last())
    } else {
        None
    }
}

/// `path` with its file name replaced by `name`.
pub open spec fn with_name(path: Seq<u8>, name: Seq<u8>) -> Seq<u8> {
    match (file_name_of(path), parent_path(path)) {
        (Some(_), Some(parent)) => joined(parent, name),
        _ => joined(path, name),
    }
}

/// What follows `base` in `path`, for a path within `base`.
pub open spec fn stripped(path: Seq<u8>, base: Seq<u8>) -> Option<Seq<u8>> {
    let all = spans(path);
    let skipped = components(base).len() as int;
    if !is_within(path, base) {
        None
    } else if skipped >= all.len() {
        Some(seq![])
    } else if skipped == 0 {
        Some(path.take(all.last().1))
    } else {
        Some(path.subrange(all[skipped].0, all.last().1))
    }
}

/// A segment ends at the next separator or at the end of the path.
pub proof fn lemma_segment_end(path: Seq<u8>, from: int)
    requires
        0 <= from <= path.len(),
    ensures
        from <= segment_end(path, from) <= path.len(),
        from < path.len() && path[from] != SEPARATOR ==> from < segment_end(path, from),
        segment_end(path, from) < path.len() ==> path[segment_end(path, from)] == SEPARATOR,
        forall|i: int| from <= i < segment_end(path, from) ==> path[i] != SEPARATOR,
    decreases path.len() - from,
{
    if from < path.len() && path[from] != SEPARATOR {
        lemma_segment_end(path, from + 1);
    }
}

/// The components at or after a place lie there, one behind the other.
pub proof fn lemma_spans_from(path: Seq<u8>, from: int)
    requires
        0 <= from,
    ensures
        forall|i: int|
            #![trigger spans_from(path, from)[i]]
            0 <= i < spans_from(path, from).len() ==> from <= spans_from(path, from)[i].0
                < spans_from(path, from)[i].1 <= path.len(),
        forall|i: int, j: int|
            #![trigger spans_from(path, from)[i], spans_from(path, from)[j]]
            0 <= i < j < spans_from(path, from).len() ==> spans_from(path, from)[i].1
                <= spans_from(path, from)[j].0,
    decreases path.len() - from,
{
    if from < path.len() {
        if path[from] == SEPARATOR {
            lemma_spans_from(path, from + 1);
            assert(spans_from(path, from) == spans_from(path, from + 1));
        } else {
            let end = segment_end(path, from);
            lemma_segment_end(path, from);
            lemma_spans_from(path, end);
            assert(is_inner_dot(path, from, end) ==> spans_from(path, from) == spans_from(path, end));
            let (all, tail) = (spans_from(path, from), spans_from(path, end));
            if !is_inner_dot(path, from, end) {
                assert(all =~= seq![(from, end)] + tail);
                assert forall|i: int| #![trigger all[i]] 0 <= i < all.len() implies from <= all[i].0
                    < all[i].1 <= path.len() by {
                    if i > 0 {
                        assert(all[i] == tail[i - 1]);
                    }
                }
                assert forall|i: int, j: int| #![trigger all[i], all[j]] 0 <= i < j
                    < all.len() implies all[i].1 <= all[j].0 by {
                    assert(all[j] == tail[j - 1]);
                    if i > 0 {
                        assert(all[i] == tail[i - 1]);
                    }
                }
            }
        }
    }
}

/// Every component lies within the path, and the components stand in order.
pub proof fn lemma_spans(path: Seq<u8>)
    ensures
        forall|i: int|
            #![trigger spans(path)[i]]
            0 <= i < spans(path).len() ==> 0 <= spans(path)[i].0 < spans(path)[i].1 <= path.len(),
        forall|i: int, j: int|
            #![trigger spans(path)[i], spans(path)[j]]
            0 <= i < j < spans(path).len() ==> spans(path)[i].1 <= spans(path)[j].0,
{
    lemma_spans_from(path, 0);
    lemma_spans_from(path, 1);
}

fn find_segment_end(path: &[u8], from: usize) -> (end: usize)
    requires
        from <= path.len(),
    ensures
        end == segment_end(path@, from as int),
        from <= end <= path.len(),
{
    let mut end = from;
    while end < path.len() && path[end] != SEPARATOR
        invariant
            from <= end <= path.len(),
            segment_end(path@, from as int) == segment_end(path@, end as int),
        decreases path.len() - end,
    {
        end = end + 1;
    }
    end
}

/// The spans that stand behind `found`, as mathematical pairs.
pub open spec fn spans_view(found: Seq<(usize, usize)>) -> Seq<(int, int)> {
    found.map_values(|span: (usize, usize)| (span.0 as int, span.1 as int))
}

/// Start and end of each component of `path`.
pub fn component_spans(path: &[u8]) -> (found: Vec<(usize, usize)>)
    ensures
        spans_view(found@) == spans(path@),
{
    let mut found: Vec<(usize, usize)> = Vec::new();
    let mut at: usize = 0;
    if path.len() > 0 && path[0] == SEPARATOR {
        found.push((0, 1));
        at = 1;
    }
    assert(spans_view(found@) + spans_from(path@, at as int) =~= spans(path@));
    while at < path.len()
        invariant
            at <= path.len(),
            spans_view(found@) + spans_from(path@, at as int) == spans(path@),
        decreases path.len() - at,
    {
        if path[at] == SEPARATOR {
            at = at + 1;
        } else {
            let end = find_segment_end(path, at);
            proof {
                lemma_segment_end(path@, at as int);
            }
            if at > 0 && end - at == 1 && path[at] == DOT {
                at = end;
            } else {
                let ghost before = found@;
                found.push((at, end));
                proof {
                    assert(spans_view(found@) =~= spans_view(before).push((at as int, end as int)));
                    assert(spans_view(found@) + spans_from(path@, end as int) =~= spans_view(before)
                        + spans_from(path@, at as int));
                }
                at = end;
            }
        }
    }
    assert(spans_view(found@) =~= spans(path@));
    found
}

proof fn lemma_found(path: Seq<u8>, found: Seq<(usize, usize)>)
    requires
        spans_view(found) == spans(path),
    ensures
        found.len() == spans(path).len(),
        components(path).len() == found.len(),
        forall|i: int|
            #![trigger found[i]]
            0 <= i < found.len() ==> found[i].0 < found[i].1 <= path.len() && spans(path)[i] == (
                found[i].0 as int,
                found[i].1 as int,
            ) && components(path)[i] == path.subrange(found[i].0 as int, found[i].1 as int),
{
    lemma_spans(path);
    assert forall|i: int| #![trigger found[i]] 0 <= i < found.len() implies found[i].0 < found[i].1
        <= path.len() && spans(path)[i] == (found[i].0 as int, found[i].1 as int) && components(
        path,
    )[i] == path.subrange(found[i].0 as int, found[i].1 as int) by {
        assert(spans_view(found)[i] == spans(path)[i]);
    }
}

/// Whether `path` starts at the root.
pub fn is_absolute(path: &[u8]) -> (absolute: bool)
    ensures
        absolute == is_absolute_path(path@),
{
    path.len() > 0 && path[0] == SEPARATOR
}

/// Whether `path` is `base` or lies below it.
pub fn starts_with(path: &[u8], base: &[u8]) -> (within: bool)
    ensures
        within == is_within(path@, base@),
{
    let path_spans = component_spans(path);
    let base_spans = component_spans(base);
    proof {
        lemma_found(path@, path_spans@);
        lemma_found(base@, base_spans@);
    }
    if base_spans.len() > path_spans.len() {
        return false;
    }
    let mut at: usize = 0;
    while at < base_spans.len()
        invariant
            at <= base_spans.len() <= path_spans.len(),
            spans_view(path_spans@) == spans(path@),
            spans_view(base_spans@) == spans(base@),
            forall|i: int| 0 <= i < at ==> #[trigger] components(base@)[i] == components(path@)[i],
        decreases base_spans.len() - at,
    {
        proof {
            lemma_found(path@, path_spans@);
            lemma_found(base@, base_spans@);
        }
        let path_span = path_spans[at];
        let base_span = base_spans[at];
        if !bytes_equal(
            vstd::slice::slice_subrange(path, path_span.0, path_span.1),
            vstd::slice::slice_subrange(base, base_span.0, base_span.1),
        ) {
            assert(components(base@)[at as int] != components(path@)[at as int]);
            assert(components(base@) != components(path@).take(components(base@).len() as int));
            return false;
        }
        at = at + 1;
    }
    assert(components(base@) =~= components(path@).take(components(base@).len() as int));
    true
}

/// Whether both paths name the same location.
pub fn paths_equal(left: &[u8], right: &[u8]) -> (equal: bool)
    ensures
        equal == same_path(left@, right@),
{
    let within = starts_with(left, right) && starts_with(right, left);
    proof {
        let (a, b) = (components(left@), components(right@));
        if within {
            assert(a.len() == b.len());
            assert(a =~= b);
        } else if a == b {
            assert(a.take(a.len() as int) =~= a);
        }
    }
    within
}

/// `path` resolved against `base`: an absolute `path` replaces `base`.
pub fn join(base: &[u8], path: &[u8]) -> (result: Vec<u8>)
    ensures
        result@ == joined(base@, path@),
{
    if is_absolute(path) {
        return vstd::slice::slice_to_vec(path);
    }
    let mut result = vstd::slice::slice_to_vec(base);
    if base.len() > 0 && base[base.len() - 1] != SEPARATOR {
        result.push(SEPARATOR);
    }
    let mut tail = vstd::slice::slice_to_vec(path);
    result.append(&mut tail);
    result
}

/// The path without its last component, for a path that has one below the root.
pub fn parent(path: &[u8]) -> (result: Option<Vec<u8>>)
    ensures
        result is Some == parent_path(path@) is Some,
        result matches Some(found) ==> found@ == parent_path(path@)->0,
{
    let found = component_spans(path);
    proof {
        lemma_found(path@, found@);
    }
    if found.len() == 0 {
        return None;
    }
    let last = found[found.len() - 1];
    proof {
        let text = path@.subrange(last.0 as int, last.1 as int);
        assert(last.1 - last.0 == 1 && path@[last.0 as int] == SEPARATOR ==> text
            =~= seq![SEPARATOR]);
        assert(text == seq![SEPARATOR] ==> text.len() == 1 && text[0] == SEPARATOR);
        assert(last.1 - last.0 == 1 ==> text[0] == path@[last.0 as int]);
    }
    if last.1 - last.0 == 1 && path[last.0] == SEPARATOR {
        return None;
    }
    let end: usize = if found.len() == 1 {
        0
    } else {
        found[found.len() - 2].1
    };
    let result = vstd::slice::slice_to_vec(vstd::slice::slice_subrange(path, 0, end));
    proof {
        assert(found.len() == 1 ==> result@ =~= seq![]);
        if found.len() > 1 {
            assert(spans(path@)[found.len() - 2].1 == end);
            assert(result@ =~= path@.take(end as int));
        }
    }
    Some(result)
}

fn name_is_proper(component: &[u8]) -> (proper: bool)
    ensures
        proper == is_name(component@),
{
    proof {
        if component.len() == 1 {
            assert(component@ =~= seq![component@[0]]);
            assert(seq![component@[0]][0] == component@[0]);
        }
        if component.len() == 2 {
            assert(component@ =~= seq![component@[0], component@[1]]);
        }
        assert(seq![DOT, DOT][0] == DOT && seq![DOT, DOT][1] == DOT);
        assert(seq![SEPARATOR][0] == SEPARATOR && seq![DOT][0] == DOT);
    }
    if component.len() == 1 {
        component[0] != SEPARATOR && component[0] != DOT
    } else if component.len() == 2 {
        component[0] != DOT || component[1] != DOT
    } else {
        true
    }
}

/// The last component, when it is a proper name.
pub fn file_name(path: &[u8]) -> (name: Option<Vec<u8>>)
    ensures
        name is Some == file_name_of(path@) is Some,
        name matches Some(found) ==> found@ == file_name_of(path@)->0,
{
    let found = component_spans(path);
    proof {
        lemma_found(path@, found@);
    }
    if found.len() == 0 {
        return None;
    }
    let last = found[found.len() - 1];
    let component = vstd::slice::slice_subrange(path, last.0, last.1);
    assert(components(path@).last() == component@);
    if name_is_proper(component) {
        Some(vstd::slice::slice_to_vec(component))
    } else {
        None
    }
}

/// `path` with its file name replaced by `name`.
pub fn with_file_name(path: &[u8], name: &[u8]) -> (result: Vec<u8>)
    ensures
        result@ == with_name(path@, name@),
{
    match (file_name(path), parent(path)) {
        (Some(_), Some(above)) => join(above.as_slice(), name),
        _ => join(path, name),
    }
}

/// What follows `base` in `path`, for a path within `base`.
pub fn strip_prefix(path: &[u8], base: &[u8]) -> (rest: Option<Vec<u8>>)
    ensures
        rest is Some == stripped(path@, base@) is Some,
        rest matches Some(found) ==> found@ == stripped(path@, base@)->0,
{
    if !starts_with(path, base) {
        return None;
    }
    let found = component_spans(path);
    let skipped = component_spans(base).len();
    proof {
        lemma_found(path@, found@);
        lemma_spans(path@);
        assert(spans(base@).len() == components(base@).len());
    }
    if skipped >= found.len() {
        return Some(Vec::new());
    }
    let start: usize = if skipped == 0 {
        0
    } else {
        found[skipped].0
    };
    let end = found[found.len() - 1].1;
    proof {
        assert(spans(path@)[skipped as int].0 == found@[skipped as int].0);
        assert(spans(path@)[found.len() - 1].1 == end);
        assert(start <= end) by {
            if skipped < found.len() - 1 {
                assert(spans(path@)[skipped as int].1 <= spans(path@)[found.len() - 1].0);
            }
        }
    }
    let rest = vstd::slice::slice_to_vec(vstd::slice::slice_subrange(path, start, end));
    assert(skipped == 0 ==> rest@ =~= path@.take(end as int));
    Some(rest)
}

/// How a component is ranked before its bytes are compared.
pub open spec fn component_rank(component: Seq<u8>) -> int {
    if component == seq![SEPARATOR] {
        0
    } else if component == seq![DOT] {
        1
    } else if component == seq![DOT, DOT] {
        2
    } else {
        3
    }
}

/// Whether component `left` comes strictly before component `right`.
pub open spec fn component_less(left: Seq<u8>, right: Seq<u8>) -> bool {
    if component_rank(left) != component_rank(right) {
        component_rank(left) < component_rank(right)
    } else {
        bytes_less(left, right)
    }
}

/// Whether the first component list comes strictly before the second.
pub open spec fn components_less(left: Seq<Seq<u8>>, right: Seq<Seq<u8>>) -> bool
    decreases left.len(),
{
    if right.len() == 0 {
        false
    } else if left.len() == 0 {
        true
    } else if left[0] != right[0] {
        component_less(left[0], right[0])
    } else {
        components_less(left.drop_first(), right.drop_first())
    }
}

/// Whether path `left` comes strictly before path `right`, component by component.
pub open spec fn path_less(left: Seq<u8>, right: Seq<u8>) -> bool {
    components_less(components(left), components(right))
}

fn rank_of(component: &[u8]) -> (rank: u8)
    ensures
        rank == component_rank(component@),
{
    let proper = name_is_proper(component);
    proof {
        if component.len() == 1 {
            assert(component@ =~= seq![component@[0]]);
        }
        assert(seq![DOT, DOT].len() == 2);
        assert(seq![SEPARATOR][0] == SEPARATOR && seq![DOT][0] == DOT);
    }
    if proper {
        3
    } else if component.len() == 2 {
        2
    } else if component[0] == DOT {
        1
    } else {
        0
    }
}

/// Whether path `left` comes strictly before path `right`, component by component.
pub fn path_before(left: &[u8], right: &[u8]) -> (before: bool)
    ensures
        before == path_less(left@, right@),
{
    let left_spans = component_spans(left);
    let right_spans = component_spans(right);
    let ghost (a, b) = (components(left@), components(right@));
    let mut at: usize = 0;
    assert(a.skip(0) =~= a);
    assert(b.skip(0) =~= b);
    proof {
        lemma_found(left@, left_spans@);
        lemma_found(right@, right_spans@);
    }
    while at < left_spans.len() && at < right_spans.len()
        invariant
            at <= left_spans.len(),
            at <= right_spans.len(),
            spans_view(left_spans@) == spans(left@),
            spans_view(right_spans@) == spans(right@),
            a == components(left@),
            b == components(right@),
            a.len() == left_spans.len(),
            b.len() == right_spans.len(),
            components_less(a, b) == components_less(a.skip(at as int), b.skip(at as int)),
        decreases left_spans.len() - at,
    {
        proof {
            lemma_found(left@, left_spans@);
            lemma_found(right@, right_spans@);
        }
        let left_span = left_spans[at];
        let right_span = right_spans[at];
        let left_part = vstd::slice::slice_subrange(left, left_span.0, left_span.1);
        let right_part = vstd::slice::slice_subrange(right, right_span.0, right_span.1);
        assert(a.skip(at as int)[0] == left_part@);
        assert(b.skip(at as int)[0] == right_part@);
        if !bytes_equal(left_part, right_part) {
            let (left_rank, right_rank) = (rank_of(left_part), rank_of(right_part));
            return if left_rank != right_rank {
                left_rank < right_rank
            } else {
                bytes_before(left_part, right_part)
            };
        }
        assert(a.skip(at as int).drop_first() =~= a.skip(at + 1));
        assert(b.skip(at as int).drop_first() =~= b.skip(at + 1));
        at = at + 1;
    }
    at < right_spans.len()
}

/// A joined relative path lies within its base.
pub proof fn lemma_joined_within(base: Seq<u8>, path: Seq<u8>)
    requires
        !is_absolute_path(path),
    ensures
        is_within(joined(base, path), base),
{
    let whole = joined(base, path);
    lemma_joined_spans(base, path);
    lemma_spans(base);
    assert forall|i: int| 0 <= i < components(base).len() implies #[trigger] components(base)[i]
        == components(whole)[i] by {
        assert(spans(base)[i] == spans(whole)[i]);
        let span = spans(base)[i];
        assert(base.subrange(span.0, span.1) =~= whole.subrange(span.0, span.1));
    }
    assert(components(base) =~= components(whole).take(components(base).len() as int));
}

proof fn lemma_joined_spans(base: Seq<u8>, path: Seq<u8>)
    requires
        !is_absolute_path(path),
    ensures
        spans(base).is_prefix_of(spans(joined(base, path))),
{
    let whole = joined(base, path);
    if base.len() > 0 {
        assert(whole[0] == base[0]);
        if is_absolute_path(base) {
            lemma_spans_from_extended(base, whole, 1);
            assert(spans(whole).take(spans(base).len() as int) =~= seq![(0int, 1int)] + spans_from(
                whole,
                1,
            ).take(spans_from(base, 1).len() as int));
        } else {
            lemma_spans_from_extended(base, whole, 0);
        }
        assert(spans(base) =~= spans(whole).take(spans(base).len() as int));
    } else {
        assert(spans(base) =~= seq![]);
        assert(spans(whole).take(0) =~= seq![]);
    }
}

proof fn lemma_spans_from_extended(base: Seq<u8>, whole: Seq<u8>, from: int)
    requires
        0 <= from,
        base.len() <= whole.len(),
        forall|i: int| 0 <= i < base.len() ==> base[i] == whole[i],
        whole.len() > base.len() && base.len() > 0 ==> base.last() == SEPARATOR || whole[base.len() as int]
            == SEPARATOR,
    ensures
        spans_from(base, from).is_prefix_of(spans_from(whole, from)),
    decreases base.len() - from,
{
    if from < base.len() {
        if base[from] == SEPARATOR {
            lemma_spans_from_extended(base, whole, from + 1);
        } else {
            lemma_segment_end(base, from);
            lemma_segment_end_extended(base, whole, from);
            let end = segment_end(base, from);
            lemma_spans_from_extended(base, whole, end);
            let (a, b) = (spans_from(base, from), spans_from(whole, from));
            let (c, d) = (spans_from(base, end), spans_from(whole, end));
            if !is_inner_dot(base, from, end) {
                assert(b.take(a.len() as int) =~= seq![(from, end)] + d.take(c.len() as int));
            }
        }
    } else {
        assert(spans_from(whole, from).take(0) =~= seq![]);
    }
}

proof fn lemma_segment_end_extended(base: Seq<u8>, whole: Seq<u8>, from: int)
    requires
        0 <= from <= base.len(),
        base.len() <= whole.len(),
        forall|i: int| 0 <= i < base.len() ==> base[i] == whole[i],
        whole.len() > base.len() && base.len() > 0 ==> base.last() == SEPARATOR || whole[base.len() as int]
            == SEPARATOR,
        from < base.len() && base[from] != SEPARATOR,
    ensures
        segment_end(base, from) == segment_end(whole, from),
    decreases base.len() - from,
{
    if from + 1 < base.len() && base[from + 1] != SEPARATOR {
        lemma_segment_end_extended(base, whole, from + 1);
    } else {
        assert(segment_end(base, from + 1) == from + 1);
        assert(segment_end(whole, from + 1) == from + 1);
    }
}

} // verus!

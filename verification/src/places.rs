//! What lies at the places of labeled trees, and what the digest of the trees says about it.

use vstd::prelude::*;
use vstd::string::*;
use crate::digest::{collides, fits, frames, lemma_frames_injective, Field};
use crate::paths::same_path;
use crate::tree::{
    are_due, has_paths_for, hashed, hashed_of, is_due, is_excluded, is_visited, is_whole_walk,
    labels_alike, labels_of, lemma_fields_tell_hashed, lemma_starts_alike, lemma_walks_stay_alike,
    listed, met_alike, met_of, tree_digest, walk_start, walked, Hashed, LabeledView, Met,
    PendingView, Visit, WalkState,
};

verus! {

/// What lies at a path.
pub enum Node {
    /// A file.
    File {
        /// What the file holds.
        contents: Seq<u8>,
    },
    /// A directory.
    Directory {
        /// Names of its entries, in any order.
        names: Seq<Seq<u8>>,
    },
}

/// Where a path resolves to, and what lies there.
pub struct Place {
    /// Where the path resolves to.
    pub canonical: Seq<u8>,
    /// What lies there.
    pub node: Node,
}

/// The label of the path that a walk meets after `at` others.
pub open spec fn label_at(start: WalkState, visits: Seq<Visit>, at: int) -> Seq<u8> {
    walked(start, met_of(visits).take(at)).pending.last().label
}

/// Whether a visit says what lies at a place.
pub open spec fn is_seen(place: Place, visit: Visit) -> bool {
    &&& visit.canonical == place.canonical
    &&& match visit.met {
        Met::Excluded => true,
        Met::File { contents } => place.node == Node::File { contents },
        Met::Directory { names } => place.node matches Node::Directory { names: all }
            && names.to_multiset() == all.to_multiset(),
        Met::DirectoryAgain => place.node is Directory,
    }
}

/// Whether every visit of a walk says what lies at the place of its label.
pub open spec fn is_walk_over(
    places: spec_fn(Seq<u8>) -> Place,
    start: WalkState,
    visits: Seq<Visit>,
) -> bool {
    forall|i: int|
        0 <= i < visits.len() ==> is_seen(places(label_at(start, visits, i)), #[trigger] visits[i])
}

/// Whether the same lies at two paths, but for the order in which entries are listed.
pub open spec fn nodes_alike(left: Node, right: Node) -> bool {
    match (left, right) {
        (Node::Directory { names }, Node::Directory { names: others }) => names.to_multiset()
            == others.to_multiset(),
        _ => left == right,
    }
}

/// Whether the same lies under a label in two trees, and the label is excluded in both or neither.
pub open spec fn same_place(
    left: Place,
    left_excluded: Seq<Seq<u8>>,
    right: Place,
    right_excluded: Seq<Seq<u8>>,
) -> bool {
    &&& nodes_alike(left.node, right.node)
    &&& is_excluded(left.canonical, left_excluded) == is_excluded(
        right.canonical,
        right_excluded,
    )
}

/// Whether two labels lead to one place in both of two trees or in neither.
pub open spec fn same_bond(left: Place, left_other: Place, right: Place, right_other: Place) -> bool {
    same_path(left.canonical, left_other.canonical) == same_path(
        right.canonical,
        right_other.canonical,
    )
}

/// Whether the same lies at the places of two trees, wherever the trees are: under each label
/// lies the same, the same labels are excluded, and the same labels lead to one directory.
pub open spec fn places_alike(
    left: spec_fn(Seq<u8>) -> Place,
    left_excluded: Seq<Seq<u8>>,
    right: spec_fn(Seq<u8>) -> Place,
    right_excluded: Seq<Seq<u8>>,
) -> bool {
    &&& forall|label: Seq<u8>| #[trigger]
        same_place(left(label), left_excluded, right(label), right_excluded)
    &&& forall|label: Seq<u8>, other: Seq<u8>| #[trigger]
        same_bond(left(label), left(other), right(label), right(other))
}

/// Whether a directory was listed at an earlier visit.
spec fn was_listed(path: Seq<u8>, visits: Seq<Visit>, at: int) -> bool {
    exists|k: int|
        0 <= k < at && (#[trigger] visits[k]).met is Directory && same_path(
            path,
            visits[k].canonical,
        )
}

proof fn lemma_listed(path: Seq<u8>, visits: Seq<Visit>, at: int)
    requires
        0 <= at <= visits.len(),
    ensures
        is_visited(path, listed(visits.take(at))) == was_listed(path, visits, at),
    decreases at,
{
    let list = listed(visits.take(at));
    if at > 0 {
        let shorter = listed(visits.take(at - 1));
        lemma_listed(path, visits, at - 1);
        assert(visits.take(at).drop_last() =~= visits.take(at - 1));
        assert(visits.take(at).last() == visits[at - 1]);
        if is_visited(path, list) {
            let i = choose|i: int| 0 <= i < list.len() && same_path(path, #[trigger] list[i]);
            if i < shorter.len() {
                assert(shorter[i] == list[i]);
                assert(is_visited(path, shorter));
                let k = choose|k: int|
                    0 <= k < at - 1 && (#[trigger] visits[k]).met is Directory && same_path(
                        path,
                        visits[k].canonical,
                    );
                assert(visits[k].met is Directory);
            } else {
                assert(visits[at - 1].met is Directory);
            }
        }
        if was_listed(path, visits, at) {
            let k = choose|k: int|
                0 <= k < at && (#[trigger] visits[k]).met is Directory && same_path(
                    path,
                    visits[k].canonical,
                );
            if k < at - 1 {
                assert(was_listed(path, visits, at - 1));
                let i = choose|i: int|
                    0 <= i < shorter.len() && same_path(path, #[trigger] shorter[i]);
                assert(list[i] == shorter[i]);
            } else {
                assert(list[shorter.len() as int] == visits[k].canonical);
            }
        }
    }
}

proof fn lemma_last_labels(left: Seq<PendingView>, right: Seq<PendingView>)
    requires
        labels_alike(left, right),
    ensures
        left.len() == right.len(),
        left.len() > 0 ==> left.last().label == right.last().label,
{
    let label = |path: PendingView| path.label;
    assert(left.map_values(label).len() == right.map_values(label).len());
    if left.len() > 0 {
        assert(left.map_values(label)[left.len() - 1] == right.map_values(label)[left.len() - 1]);
    }
}

/// Whether two walks start alike over places that are alike.
#[verifier::opaque]
spec fn are_twins(
    left: WalkState,
    visits: Seq<Visit>,
    places: spec_fn(Seq<u8>) -> Place,
    excluded: Seq<Seq<u8>>,
    right: WalkState,
    other_visits: Seq<Visit>,
    other_places: spec_fn(Seq<u8>) -> Place,
    other_excluded: Seq<Seq<u8>>,
) -> bool {
    &&& left.fields == right.fields
    &&& labels_alike(left.pending, right.pending)
    &&& is_whole_walk(left, visits, excluded)
    &&& is_whole_walk(right, other_visits, other_excluded)
    &&& is_walk_over(places, left, visits)
    &&& is_walk_over(other_places, right, other_visits)
    &&& places_alike(places, excluded, other_places, other_excluded)
}

proof fn lemma_twins_list_alike(
    left: WalkState,
    visits: Seq<Visit>,
    places: spec_fn(Seq<u8>) -> Place,
    excluded: Seq<Seq<u8>>,
    right: WalkState,
    other_visits: Seq<Visit>,
    other_places: spec_fn(Seq<u8>) -> Place,
    other_excluded: Seq<Seq<u8>>,
    at: int,
)
    requires
        is_walk_over(places, left, visits),
        is_walk_over(other_places, right, other_visits),
        places_alike(places, excluded, other_places, other_excluded),
        0 <= at < visits.len(),
        at < other_visits.len(),
        are_met_alike(left, visits, right, other_visits, at),
        label_at(left, visits, at) == label_at(right, other_visits, at),
    ensures
        was_listed(visits[at].canonical, visits, at) == was_listed(
            other_visits[at].canonical,
            other_visits,
            at,
        ),
{
    let (a, b) = (visits[at], other_visits[at]);
    let label = label_at(left, visits, at);
    assert(is_seen(places(label), a));
    assert(is_seen(other_places(label), b));
    assert forall|k: int| 0 <= k < at implies {
        &&& (#[trigger] visits[k]).met is Directory == other_visits[k].met is Directory
        &&& same_path(a.canonical, visits[k].canonical) == same_path(
            b.canonical,
            other_visits[k].canonical,
        )
    } by {
        let earlier = label_at(left, visits, k);
        assert(is_alike(left, visits, right, other_visits, k));
        assert(is_seen(places(earlier), visits[k]));
        assert(is_seen(other_places(earlier), other_visits[k]));
        assert(same_bond(
            places(label),
            places(earlier),
            other_places(label),
            other_places(earlier),
        ));
    }
    if was_listed(a.canonical, visits, at) {
        let k = choose|k: int|
            0 <= k < at && (#[trigger] visits[k]).met is Directory && same_path(
                a.canonical,
                visits[k].canonical,
            );
        assert(other_visits[k].met is Directory);
    }
    if was_listed(b.canonical, other_visits, at) {
        let k = choose|k: int|
            0 <= k < at && (#[trigger] other_visits[k]).met is Directory && same_path(
                b.canonical,
                other_visits[k].canonical,
            );
        assert(visits[k].met is Directory);
    }
}

proof fn lemma_twins_see_alike(
    left: WalkState,
    visits: Seq<Visit>,
    places: spec_fn(Seq<u8>) -> Place,
    excluded: Seq<Seq<u8>>,
    right: WalkState,
    other_visits: Seq<Visit>,
    other_places: spec_fn(Seq<u8>) -> Place,
    other_excluded: Seq<Seq<u8>>,
    at: int,
)
    requires
        is_walk_over(places, left, visits),
        is_walk_over(other_places, right, other_visits),
        are_due(visits, excluded),
        are_due(other_visits, other_excluded),
        places_alike(places, excluded, other_places, other_excluded),
        0 <= at < visits.len(),
        at < other_visits.len(),
        are_met_alike(left, visits, right, other_visits, at),
        label_at(left, visits, at) == label_at(right, other_visits, at),
    ensures
        met_alike(visits[at].met, other_visits[at].met),
{
    let (a, b) = (visits[at], other_visits[at]);
    let label = label_at(left, visits, at);
    assert(is_seen(places(label), a));
    assert(is_seen(other_places(label), b));
    assert(is_due(a, visits.take(at), excluded));
    assert(is_due(b, other_visits.take(at), other_excluded));
    lemma_listed(a.canonical, visits, at);
    lemma_listed(b.canonical, other_visits, at);
    lemma_twins_list_alike(
        left,
        visits,
        places,
        excluded,
        right,
        other_visits,
        other_places,
        other_excluded,
        at,
    );
    assert(same_place(places(label), excluded, other_places(label), other_excluded));
}

/// Whether two walks meet the same under the same label after `at` others.
spec fn is_alike(
    left: WalkState,
    visits: Seq<Visit>,
    right: WalkState,
    other_visits: Seq<Visit>,
    at: int,
) -> bool {
    &&& met_alike(visits[at].met, other_visits[at].met)
    &&& label_at(left, visits, at) == label_at(right, other_visits, at)
}

/// Whether two walks meet the same under the same labels up to `upto`.
spec fn are_met_alike(
    left: WalkState,
    visits: Seq<Visit>,
    right: WalkState,
    other_visits: Seq<Visit>,
    upto: int,
) -> bool {
    forall|i: int| 0 <= i < upto ==> #[trigger] is_alike(left, visits, right, other_visits, i)
}

proof fn lemma_twins_step(
    left: WalkState,
    visits: Seq<Visit>,
    places: spec_fn(Seq<u8>) -> Place,
    excluded: Seq<Seq<u8>>,
    right: WalkState,
    other_visits: Seq<Visit>,
    other_places: spec_fn(Seq<u8>) -> Place,
    other_excluded: Seq<Seq<u8>>,
    at: int,
)
    requires
        are_twins(
            left,
            visits,
            places,
            excluded,
            right,
            other_visits,
            other_places,
            other_excluded,
        ),
        0 <= at < visits.len(),
        at < other_visits.len(),
        are_met_alike(left, visits, right, other_visits, at),
        labels_alike(
            walked(left, met_of(visits).take(at)).pending,
            walked(right, met_of(other_visits).take(at)).pending,
        ),
    ensures
        is_alike(left, visits, right, other_visits, at),
{
    reveal(are_twins);
    let (x, y) = (
        walked(left, met_of(visits).take(at)),
        walked(right, met_of(other_visits).take(at)),
    );
    assert(x.pending.len() > 0);
    lemma_last_labels(x.pending, y.pending);
    lemma_twins_see_alike(
        left,
        visits,
        places,
        excluded,
        right,
        other_visits,
        other_places,
        other_excluded,
        at,
    );
}

proof fn lemma_alike_so_far(
    left: WalkState,
    visits: Seq<Visit>,
    right: WalkState,
    other_visits: Seq<Visit>,
    upto: int,
)
    requires
        left.fields == right.fields,
        labels_alike(left.pending, right.pending),
        has_paths_for(left, met_of(visits)),
        0 <= upto <= visits.len(),
        upto <= other_visits.len(),
        are_met_alike(left, visits, right, other_visits, upto),
    ensures
        walked(left, met_of(visits).take(upto)).fields == walked(
            right,
            met_of(other_visits).take(upto),
        ).fields,
        labels_alike(
            walked(left, met_of(visits).take(upto)).pending,
            walked(right, met_of(other_visits).take(upto)).pending,
        ),
{
    let (met, other) = (met_of(visits), met_of(other_visits));
    let (p, q) = (met.take(upto), other.take(upto));
    assert forall|i: int| 0 <= i < p.len() implies met_alike(#[trigger] p[i], q[i]) by {
        assert(is_alike(left, visits, right, other_visits, i));
    }
    assert forall|i: int| 0 <= i < p.len() implies #[trigger] walked(
        left,
        p.take(i),
    ).pending.len() > 0 by {
        assert(p.take(i) =~= met.take(i));
    }
    lemma_walks_stay_alike(left, right, p, q);
}

proof fn lemma_twins_meet_alike(
    left: WalkState,
    visits: Seq<Visit>,
    places: spec_fn(Seq<u8>) -> Place,
    excluded: Seq<Seq<u8>>,
    right: WalkState,
    other_visits: Seq<Visit>,
    other_places: spec_fn(Seq<u8>) -> Place,
    other_excluded: Seq<Seq<u8>>,
    at: int,
)
    requires
        are_twins(
            left,
            visits,
            places,
            excluded,
            right,
            other_visits,
            other_places,
            other_excluded,
        ),
        0 <= at <= visits.len(),
        at <= other_visits.len(),
    ensures
        are_met_alike(left, visits, right, other_visits, at),
        walked(left, met_of(visits).take(at)).fields == walked(
            right,
            met_of(other_visits).take(at),
        ).fields,
        labels_alike(
            walked(left, met_of(visits).take(at)).pending,
            walked(right, met_of(other_visits).take(at)).pending,
        ),
    decreases at,
{
    let (met, other) = (met_of(visits), met_of(other_visits));
    if at == 0 {
        assert(met.take(0) =~= Seq::<Met>::empty());
        assert(other.take(0) =~= Seq::<Met>::empty());
        reveal(are_twins);
    } else {
        let end = at - 1;
        lemma_twins_meet_alike(
            left,
            visits,
            places,
            excluded,
            right,
            other_visits,
            other_places,
            other_excluded,
            end,
        );
        lemma_twins_step(
            left,
            visits,
            places,
            excluded,
            right,
            other_visits,
            other_places,
            other_excluded,
            end,
        );
        assert(is_alike(left, visits, right, other_visits, end));
        assert forall|i: int| 0 <= i < at implies #[trigger] is_alike(
            left,
            visits,
            right,
            other_visits,
            i,
        ) by {
        }
        assert(left.fields == right.fields && labels_alike(left.pending, right.pending)
            && has_paths_for(left, met)) by {
            reveal(are_twins);
        }
        lemma_alike_so_far(left, visits, right, other_visits, at);
    }
}

/// Trees in which the same lies under the same labels have the same digest: where they are, the
/// order in which they are given and listed, and when they were written do not matter.
pub proof fn lemma_same_trees_hash_alike(
    domain: Seq<char>,
    inputs: Seq<LabeledView>,
    visits: Seq<Visit>,
    places: spec_fn(Seq<u8>) -> Place,
    excluded: Seq<Seq<u8>>,
    other_inputs: Seq<LabeledView>,
    other_visits: Seq<Visit>,
    other_places: spec_fn(Seq<u8>) -> Place,
    other_excluded: Seq<Seq<u8>>,
)
    requires
        labels_of(inputs).to_multiset() == labels_of(other_inputs).to_multiset(),
        is_whole_walk(walk_start(domain, inputs), visits, excluded),
        is_whole_walk(walk_start(domain, other_inputs), other_visits, other_excluded),
        is_walk_over(places, walk_start(domain, inputs), visits),
        is_walk_over(other_places, walk_start(domain, other_inputs), other_visits),
        places_alike(places, excluded, other_places, other_excluded),
    ensures
        hashed(walk_start(domain, inputs), met_of(visits)) == hashed(
            walk_start(domain, other_inputs),
            met_of(other_visits),
        ),
        tree_digest(walk_start(domain, inputs), visits) == tree_digest(
            walk_start(domain, other_inputs),
            other_visits,
        ),
{
    let (left, right) = (walk_start(domain, inputs), walk_start(domain, other_inputs));
    let (met, other) = (met_of(visits), met_of(other_visits));
    let at = if visits.len() <= other_visits.len() {
        visits.len() as int
    } else {
        other_visits.len() as int
    };
    lemma_starts_alike(domain, inputs, other_inputs);
    assert(are_twins(
        left,
        visits,
        places,
        excluded,
        right,
        other_visits,
        other_places,
        other_excluded,
    )) by {
        reveal(are_twins);
    }
    lemma_twins_meet_alike(
        left,
        visits,
        places,
        excluded,
        right,
        other_visits,
        other_places,
        other_excluded,
        at,
    );
    lemma_last_labels(
        walked(left, met.take(at)).pending,
        walked(right, other.take(at)).pending,
    );
    assert(met.take(met.len() as int) =~= met);
    assert(other.take(other.len() as int) =~= other);
    assert(has_paths_for(left, met) && has_paths_for(right, other));
    assert(visits.len() == other_visits.len());
    lemma_fields_tell_hashed(left, met, right, other);
}

proof fn lemma_hashed_holds_files(start: WalkState, visits: Seq<Visit>, at: int)
    requires
        0 <= at < visits.len(),
    ensures
        visits[at].met matches Met::File { contents } ==> hashed(start, met_of(visits)).contains(
            Hashed::File { label: label_at(start, visits, at), contents },
        ),
        visits[at].met is Directory ==> hashed(start, met_of(visits)).contains(
            Hashed::Directory { label: label_at(start, visits, at) },
        ),
    decreases visits.len(),
{
    let met = met_of(visits);
    let end = visits.len() - 1;
    let shorter = visits.drop_last();
    let earlier = hashed(start, met.drop_last());
    let added = hashed_of(walked(start, met.drop_last()).pending.last(), met.last());
    let all = hashed(start, met);
    assert(met_of(shorter) =~= met.drop_last());
    assert(met.take(end) =~= met.drop_last());
    assert(all == earlier + added);
    if at < end {
        lemma_hashed_holds_files(start, shorter, at);
        assert(met_of(shorter).take(at) =~= met.take(at));
        assert(shorter[at] == visits[at]);
        if let Met::File { contents } = visits[at].met {
            let item = Hashed::File { label: label_at(start, visits, at), contents };
            let i = earlier.index_of(item);
            assert(all[i] == item);
        }
        if visits[at].met is Directory {
            let item = Hashed::Directory { label: label_at(start, visits, at) };
            let i = earlier.index_of(item);
            assert(all[i] == item);
        }
    } else if added.len() > 0 {
        assert(all[earlier.len() as int] == added[0]);
    }
}

proof fn lemma_hashed_is_seen(
    start: WalkState,
    visits: Seq<Visit>,
    places: spec_fn(Seq<u8>) -> Place,
    i: int,
)
    requires
        is_walk_over(places, start, visits),
        0 <= i < hashed(start, met_of(visits)).len(),
    ensures
        match hashed(start, met_of(visits))[i] {
            Hashed::File { label, contents } => places(label).node == Node::File { contents },
            Hashed::Directory { label } => places(label).node is Directory,
            Hashed::DirectoryAgain { label } => places(label).node is Directory,
        },
    decreases visits.len(),
{
    let met = met_of(visits);
    if visits.len() > 0 {
        let end = visits.len() - 1;
        let shorter = visits.drop_last();
        let earlier = hashed(start, met.drop_last());
        assert(met_of(shorter) =~= met.drop_last());
        assert(met.take(end) =~= met.drop_last());
        if i < earlier.len() {
            assert forall|k: int| 0 <= k < shorter.len() implies is_seen(
                places(label_at(start, shorter, k)),
                #[trigger] shorter[k],
            ) by {
                assert(met_of(shorter).take(k) =~= met.take(k));
                assert(shorter[k] == visits[k]);
            }
            lemma_hashed_is_seen(start, shorter, places, i);
        } else {
            assert(is_seen(places(label_at(start, visits, end)), visits[end]));
        }
    }
}

/// Whether every file that a walk met lies under its label at other places too, with the same
/// contents, and every directory that it listed is a directory there.
pub open spec fn lies_at(
    start: WalkState,
    visits: Seq<Visit>,
    places: spec_fn(Seq<u8>) -> Place,
) -> bool {
    forall|i: int| #![trigger visits[i]]
        0 <= i < visits.len() ==> match visits[i].met {
            Met::File { contents } => places(label_at(start, visits, i)).node == Node::File {
                contents,
            },
            Met::Directory { .. } => places(label_at(start, visits, i)).node is Directory,
            _ => true,
        }
}

/// Whether the fields that a walk hashes can be written down in full.
pub open spec fn walk_fits(start: WalkState, visits: Seq<Visit>) -> bool {
    all_fit(walked(start, met_of(visits)).fields)
}

/// Whether fields can be written down in full.
pub open spec fn all_fit(fields: Seq<Field>) -> bool {
    forall|i: int| 0 <= i < fields.len() ==> fits(#[trigger] fields[i])
}

/// Trees with the same digest hold the same files and directories under the same labels, unless
/// SHA-256 collides on what was hashed.
pub proof fn lemma_same_digest_means_same_trees(
    domain: Seq<char>,
    inputs: Seq<LabeledView>,
    visits: Seq<Visit>,
    places: spec_fn(Seq<u8>) -> Place,
    other_inputs: Seq<LabeledView>,
    other_visits: Seq<Visit>,
    other_places: spec_fn(Seq<u8>) -> Place,
)
    requires
        walk_fits(walk_start(domain, inputs), visits),
        walk_fits(walk_start(domain, other_inputs), other_visits),
        is_walk_over(places, walk_start(domain, inputs), visits),
        is_walk_over(other_places, walk_start(domain, other_inputs), other_visits),
        tree_digest(walk_start(domain, inputs), visits) == tree_digest(
            walk_start(domain, other_inputs),
            other_visits,
        ),
        !collides(
            frames(walked(walk_start(domain, inputs), met_of(visits)).fields),
            frames(walked(walk_start(domain, other_inputs), met_of(other_visits)).fields),
        ),
    ensures
        hashed(walk_start(domain, inputs), met_of(visits)) == hashed(
            walk_start(domain, other_inputs),
            met_of(other_visits),
        ),
        lies_at(walk_start(domain, inputs), visits, other_places),
        lies_at(walk_start(domain, other_inputs), other_visits, places),
{
    let (left, right) = (walk_start(domain, inputs), walk_start(domain, other_inputs));
    let (met, other) = (met_of(visits), met_of(other_visits));
    lemma_frames_injective(walked(left, met).fields, walked(right, other).fields);
    lemma_fields_tell_hashed(left, met, right, other);
    lemma_lies_where_hashed(left, visits, right, other_visits, other_places);
    lemma_lies_where_hashed(right, other_visits, left, visits, places);
}

proof fn lemma_lies_where_hashed(
    left: WalkState,
    visits: Seq<Visit>,
    right: WalkState,
    other_visits: Seq<Visit>,
    other_places: spec_fn(Seq<u8>) -> Place,
)
    requires
        hashed(left, met_of(visits)) == hashed(right, met_of(other_visits)),
        is_walk_over(other_places, right, other_visits),
    ensures
        lies_at(left, visits, other_places),
{
    let all = hashed(left, met_of(visits));
    assert forall|i: int| #![trigger visits[i]] 0 <= i < visits.len() implies match visits[i].met {
        Met::File { contents } => other_places(label_at(left, visits, i)).node == Node::File {
            contents,
        },
        Met::Directory { .. } => other_places(label_at(left, visits, i)).node is Directory,
        _ => true,
    } by {
        lemma_hashed_holds_files(left, visits, i);
        if let Met::File { contents } = visits[i].met {
            let item = Hashed::File { label: label_at(left, visits, i), contents };
            lemma_hashed_is_seen(right, other_visits, other_places, all.index_of(item));
        }
        if visits[i].met is Directory {
            let item = Hashed::Directory { label: label_at(left, visits, i) };
            lemma_hashed_is_seen(right, other_visits, other_places, all.index_of(item));
        }
    }
}

} // verus!

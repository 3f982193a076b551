//! Which paths of a description are accepted.

use vstd::prelude::*;
use vstd::string::*;
use super::boundaries::{
    boundary_problem, covers, covers_destination, declared_problem, declared_problems,
    exclusion_verdict, input_verdict, output_problem, output_problems, overlap_problems,
    resolves_alike, watch_problems, watch_verdict, BoundaryObservations, CargoObservation,
    PathObservation, Problem,
};
use super::spec::{ArtifactCacheSpecView, CargoInputView, DeclaredView};
use crate::paths::components;
use crate::wasm_cache::inputs::ResolvedView;

verus! {

/// Whether a path is another or lies below it.
pub open spec fn lies_within(path: Seq<u8>, base: Seq<u8>) -> bool {
    components(base).is_prefix_of(components(path))
}

/// Whether a place is at a path that was found, or below it where that is a directory.
pub open spec fn touches(place: Seq<u8>, found: PathObservation) -> bool {
    &&& found.canonical is Ok
    &&& components(place) == components(found.canonical->Ok_0@) || (found.is_directory == Ok::<
        bool,
        String,
    >(true) && lies_within(place, found.canonical->Ok_0@))
}

/// Whether a declared path was found and lies outside the cache root.
pub open spec fn is_outside(found: PathObservation, root: Seq<u8>) -> bool {
    &&& found.canonical is Ok
    &&& found.is_directory is Ok
    &&& !lies_within(found.canonical->Ok_0@, root)
}

/// Whether a place may be written to beside resolved Cargo inputs: it lies within one of their
/// exclusions, or every path of theirs was found and it touches none.
pub open spec fn is_beside(place: Seq<u8>, found: CargoObservation) -> bool {
    ||| exists|e: int|
        {
            &&& 0 <= e < found.exclusions@.len()
            &&& (#[trigger] found.exclusions@[e]) is Ok
            &&& lies_within(place, found.exclusions@[e]->Ok_0@)
            &&& forall|k: int| 0 <= k < e ==> (#[trigger] found.exclusions@[k]) is Ok
        }
    ||| {
        &&& forall|k: int|
            0 <= k < found.exclusions@.len() ==> (#[trigger] found.exclusions@[k]) is Ok
                && !lies_within(place, found.exclusions@[k]->Ok_0@)
        &&& forall|k: int| #![trigger found.inputs@[k]]
            0 <= k < found.inputs@.len() ==> found.inputs@[k].canonical is Ok
                && found.inputs@[k].is_directory is Ok && !touches(place, found.inputs@[k])
    }
}

proof fn lemma_exclusions(
    resolved: ResolvedView,
    observed: Seq<Result<Vec<u8>, String>>,
    place: Seq<u8>,
    from: int,
)
    requires
        0 <= from <= observed.len(),
    ensures
        exclusion_verdict(resolved, observed, place, from) is None <==> forall|k: int|
            from <= k < observed.len() ==> (#[trigger] observed[k]) is Ok && !lies_within(
                place,
                observed[k]->Ok_0@,
            ),
        exclusion_verdict(resolved, observed, place, from) == Some(Ok::<bool, Problem>(false)) <==>
            exists|e: int|
            {
                &&& from <= e < observed.len()
                &&& (#[trigger] observed[e]) is Ok
                &&& lies_within(place, observed[e]->Ok_0@)
                &&& forall|k: int| from <= k < e ==> (#[trigger] observed[k]) is Ok
            },
        exclusion_verdict(resolved, observed, place, from) != Some(Ok::<bool, Problem>(true)),
    decreases observed.len() - from,
{
    if from < observed.len() {
        lemma_exclusions(resolved, observed, place, from + 1);
        let verdict = exclusion_verdict(resolved, observed, place, from);
        let later = exclusion_verdict(resolved, observed, place, from + 1);
        if observed[from] is Ok {
            if lies_within(place, observed[from]->Ok_0@) {
                assert(verdict == Some(Ok::<bool, Problem>(false)));
            } else {
                assert(verdict == later);
                if later == Some(Ok::<bool, Problem>(false)) {
                    let e = choose|e: int|
                        {
                            &&& from + 1 <= e < observed.len()
                            &&& (#[trigger] observed[e]) is Ok
                            &&& lies_within(place, observed[e]->Ok_0@)
                            &&& forall|k: int| from + 1 <= k < e ==> (#[trigger] observed[k]) is Ok
                        };
                    assert forall|k: int| from <= k < e implies (#[trigger] observed[k]) is Ok by {
                    }
                    assert(observed[e] is Ok);
                }
                if exists|e: int|
                    {
                        &&& from <= e < observed.len()
                        &&& (#[trigger] observed[e]) is Ok
                        &&& lies_within(place, observed[e]->Ok_0@)
                        &&& forall|k: int| from <= k < e ==> (#[trigger] observed[k]) is Ok
                    } {
                    let e = choose|e: int|
                        {
                            &&& from <= e < observed.len()
                            &&& (#[trigger] observed[e]) is Ok
                            &&& lies_within(place, observed[e]->Ok_0@)
                            &&& forall|k: int| from <= k < e ==> (#[trigger] observed[k]) is Ok
                        };
                    assert(e != from);
                    assert(observed[e] is Ok);
                }
            }
        } else {
            assert(verdict is Some && verdict->0 is Err);
            assert(!(observed[from] is Ok));
        }
    }
}

proof fn lemma_inputs(
    resolved: ResolvedView,
    observed: Seq<PathObservation>,
    place: Seq<u8>,
    from: int,
)
    requires
        0 <= from <= observed.len(),
    ensures
        input_verdict(resolved, observed, place, from) == Ok::<bool, Problem>(false) <==> forall|k: int|
            #![trigger observed[k]]
            from <= k < observed.len() ==> observed[k].canonical is Ok && observed[k].is_directory
                is Ok && !touches(place, observed[k]),
    decreases observed.len() - from,
{
    if from < observed.len() {
        lemma_inputs(resolved, observed, place, from + 1);
        let found = observed[from];
        if found.canonical is Ok && found.is_directory is Ok {
            assert(touches(place, found) <==> super::boundaries::overlaps_observed(
                place,
                found.canonical->Ok_0@,
                found.is_directory->Ok_0,
            ));
        }
    }
}

proof fn lemma_watch(resolved: ResolvedView, observed: CargoObservation, place: Seq<u8>)
    ensures
        watch_verdict(resolved, observed, place) == Ok::<bool, Problem>(false) <==> is_beside(
            place,
            observed,
        ),
{
    lemma_exclusions(resolved, observed.exclusions@, place, 0);
    lemma_inputs(resolved, observed.inputs@, place, 0);
    let verdict = exclusion_verdict(resolved, observed.exclusions@, place, 0);
    if verdict == Some(Ok::<bool, Problem>(false)) {
        let e = choose|e: int|
            {
                &&& 0 <= e < observed.exclusions@.len()
                &&& (#[trigger] observed.exclusions@[e]) is Ok
                &&& lies_within(place, observed.exclusions@[e]->Ok_0@)
                &&& forall|k: int| 0 <= k < e ==> (#[trigger] observed.exclusions@[k]) is Ok
            };
        assert(observed.exclusions@[e] is Ok);
    }
}

proof fn lemma_watches(
    inputs: Seq<CargoInputView>,
    observed: Seq<CargoObservation>,
    place: Seq<u8>,
    before: Seq<char>,
    after: Seq<char>,
    upto: int,
)
    requires
        0 <= upto <= observed.len(),
    ensures
        watch_problems(inputs, observed, place, before, after, upto) is None <==> forall|i: int|
            0 <= i < upto ==> is_beside(place, #[trigger] observed[i]),
    decreases upto,
{
    if upto > 0 {
        lemma_watches(inputs, observed, place, before, after, upto - 1);
        lemma_watch(inputs[upto - 1].resolved, observed[upto - 1], place);
        assert(observed[upto - 1] == observed[upto - 1]);
    }
}

proof fn lemma_declared(
    kind: Seq<char>,
    declared: Seq<DeclaredView>,
    observed: Seq<PathObservation>,
    root: Seq<u8>,
    upto: int,
)
    requires
        0 <= upto <= observed.len(),
    ensures
        declared_problems(kind, declared, observed, root, upto) is None <==> forall|i: int|
            0 <= i < upto ==> is_outside(#[trigger] observed[i], root),
    decreases upto,
{
    if upto > 0 {
        lemma_declared(kind, declared, observed, root, upto - 1);
        assert(declared_problem(kind, declared[upto - 1], observed[upto - 1], root) is None
            <==> is_outside(observed[upto - 1], root));
    }
}

proof fn lemma_overlaps(
    kind: Seq<char>,
    declared: Seq<DeclaredView>,
    observed: Seq<PathObservation>,
    name: Seq<char>,
    place: Seq<u8>,
    upto: int,
)
    requires
        0 <= upto <= observed.len(),
    ensures
        overlap_problems(kind, declared, observed, name, place, upto) is None <==> forall|i: int|
            0 <= i < upto ==> !touches(place, #[trigger] observed[i]),
    decreases upto,
{
    if upto > 0 {
        lemma_overlaps(kind, declared, observed, name, place, upto - 1);
        assert(covers_destination(observed[upto - 1], place) <==> touches(
            place,
            observed[upto - 1],
        ));
    }
}

/// Whether the destination at `at` may be written: it resolves to a place outside the cache root
/// that no earlier output resolves to, touches no input or tool, lies beside every resolved Cargo
/// input set, and is no directory.
pub open spec fn is_free_destination(observed: BoundaryObservations, root: Seq<u8>, at: int) -> bool {
    let place = observed.outputs@[at].destination->Ok_0@;
    &&& observed.outputs@[at].destination is Ok
    &&& !lies_within(place, root)
    &&& forall|i: int| #![trigger observed.outputs@[i]]
        0 <= i < at && observed.outputs@[i].destination is Ok ==> components(
            observed.outputs@[i].destination->Ok_0@,
        ) != components(place)
    &&& forall|i: int|
        0 <= i < observed.inputs@.len() ==> !touches(place, #[trigger] observed.inputs@[i])
    &&& forall|i: int|
        0 <= i < observed.tools@.len() ==> !touches(place, #[trigger] observed.tools@[i])
    &&& forall|i: int|
        0 <= i < observed.cargo_inputs@.len() ==> is_beside(
            place,
            #[trigger] observed.cargo_inputs@[i],
        )
    &&& observed.outputs@[at].state is Missing || observed.outputs@[at].state is File
        || observed.outputs@[at].state is Other
}

proof fn lemma_output(
    spec: ArtifactCacheSpecView,
    observed: BoundaryObservations,
    root: Seq<u8>,
    at: int,
)
    requires
        covers(observed, spec),
        0 <= at < spec.outputs.len(),
    ensures
        output_problem(spec, observed, root, at) is None <==> is_free_destination(
            observed,
            root,
            at,
        ),
{
    if observed.outputs@[at].destination is Ok {
        let place = observed.outputs@[at].destination->Ok_0@;
        let name = spec.outputs[at].name;
        lemma_overlaps(
            "input"@,
            spec.inputs,
            observed.inputs@,
            name,
            place,
            spec.inputs.len() as int,
        );
        lemma_overlaps(
            "tool"@,
            spec.tools,
            observed.tools@,
            name,
            place,
            spec.tools.len() as int,
        );
        lemma_watches(
            spec.cargo_build_inputs,
            observed.cargo_inputs@,
            place,
            super::boundaries::watched_output_text(name),
            super::boundaries::watched_tail(),
            spec.cargo_build_inputs.len() as int,
        );
        if resolves_alike(observed.outputs@, place, at) {
            let i = choose|i: int|
                0 <= i < at && ((#[trigger] observed.outputs@[i]).destination matches Ok(other)
                    && crate::paths::same_path(other@, place));
            assert(components(observed.outputs@[i].destination->Ok_0@) == components(place));
        } else {
            assert forall|i: int| #![trigger observed.outputs@[i]]
                0 <= i < at && observed.outputs@[i].destination is Ok implies components(
                observed.outputs@[i].destination->Ok_0@,
            ) != components(place) by {
            }
        }
    }
}

proof fn lemma_outputs(
    spec: ArtifactCacheSpecView,
    observed: BoundaryObservations,
    root: Seq<u8>,
    upto: int,
)
    requires
        covers(observed, spec),
        0 <= upto <= spec.outputs.len(),
    ensures
        output_problems(spec, observed, root, upto) is None <==> forall|i: int|
            0 <= i < upto ==> #[trigger] is_free_destination(observed, root, i),
    decreases upto,
{
    if upto > 0 {
        lemma_outputs(spec, observed, root, upto - 1);
        lemma_output(spec, observed, root, upto - 1);
        assert(is_free_destination(observed, root, upto - 1) == is_free_destination(
            observed,
            root,
            upto - 1,
        ));
    }
}

/// The paths of a description are accepted exactly when the cache root resolves, every input and
/// tool was found outside it, it lies beside every resolved Cargo input set, and every destination
/// may be written.
pub proof fn lemma_accepted_boundaries(
    spec: ArtifactCacheSpecView,
    observed: BoundaryObservations,
)
    requires
        covers(observed, spec),
    ensures
        boundary_problem(spec, observed) is None <==> {
            let root = observed.cache_root->Ok_0@;
            &&& observed.cache_root is Ok
            &&& forall|i: int|
                0 <= i < observed.inputs@.len() ==> is_outside(#[trigger] observed.inputs@[i], root)
            &&& forall|i: int|
                0 <= i < observed.tools@.len() ==> is_outside(#[trigger] observed.tools@[i], root)
            &&& forall|i: int|
                0 <= i < observed.cargo_inputs@.len() ==> is_beside(
                    root,
                    #[trigger] observed.cargo_inputs@[i],
                )
            &&& forall|i: int|
                0 <= i < spec.outputs.len() ==> #[trigger] is_free_destination(observed, root, i)
        },
{
    if observed.cache_root is Ok {
        let root = observed.cache_root->Ok_0@;
        lemma_declared(
            "input"@,
            spec.inputs,
            observed.inputs@,
            root,
            spec.inputs.len() as int,
        );
        lemma_declared("tool"@, spec.tools, observed.tools@, root, spec.tools.len() as int);
        lemma_watches(
            spec.cargo_build_inputs,
            observed.cargo_inputs@,
            root,
            super::boundaries::watched_root_text(),
            super::boundaries::watched_tail(),
            spec.cargo_build_inputs.len() as int,
        );
        lemma_outputs(spec, observed, root, spec.outputs.len() as int);
    }
}

} // verus!

//! Where inputs, tools, outputs and the cache may lie relative to each other.
//!
//! The checks work on what was found out about the file system beforehand:
//! one observation for each path of a description.

use vstd::prelude::*;
use vstd::string::*;
use super::error::{invalid_spec, io_failure, is_invalid_spec, is_io, ArtifactCacheError};
use super::spec::{
    cargo_views, declared_views, output_views, ArtifactCacheSpec, ArtifactCacheSpecView,
    CargoBuildInputSet, CargoInputView, DeclaredPath, DeclaredView,
};
use crate::paths::{is_within, paths_equal, same_path, starts_with};
use crate::resolution::PathState;
use crate::settings::copy_bytes;
use crate::wasm_cache::inputs::{ResolvedCargoBuildInputs, ResolvedView};

verus! {

/// What was found out about a path that has to exist.
#[derive(Debug)]
pub struct PathObservation {
    /// Canonical path, or the rendered cause why there is none.
    pub canonical: Result<Vec<u8>, String>,
    /// Whether a directory lies there, or the rendered cause why that is unknown.
    pub is_directory: Result<bool, String>,
}

/// What was found out about the paths of a resolved Cargo input set.
#[derive(Debug)]
pub struct CargoObservation {
    /// Where each exclusion resolves to, or the rendered cause why that is unknown.
    pub exclusions: Vec<Result<Vec<u8>, String>>,
    /// What was found at each input.
    pub inputs: Vec<PathObservation>,
}

/// What was found out about an output destination.
#[derive(Debug)]
pub struct DestinationObservation {
    /// Where the destination resolves to, or the rendered cause why that is unknown.
    pub destination: Result<Vec<u8>, String>,
    /// What is found there, behind symbolic links.
    pub state: PathState,
}

/// What was found out about every path of a description.
#[derive(Debug)]
pub struct BoundaryObservations {
    /// Where the cache root resolves to, or the rendered cause why that is unknown.
    pub cache_root: Result<Vec<u8>, String>,
    /// What was found at each declared input.
    pub inputs: Vec<PathObservation>,
    /// What was found at each declared tool.
    pub tools: Vec<PathObservation>,
    /// What was found out about each resolved Cargo input set.
    pub cargo_inputs: Vec<CargoObservation>,
    /// What was found out about each output destination.
    pub outputs: Vec<DestinationObservation>,
}

/// Why the paths of a description are not accepted.
pub enum Problem {
    /// The description breaks a rule.
    Rejected(Seq<char>),
    /// A path could not be resolved or inspected.
    Failed {
        /// What was attempted.
        operation: Seq<char>,
        /// Where it was attempted.
        path: Seq<u8>,
        /// Rendered cause.
        source: Seq<char>,
    },
}

/// The first of two problems.
pub open spec fn first_problem(first: Option<Problem>, second: Option<Problem>) -> Option<Problem> {
    match first {
        Some(_) => first,
        None => second,
    }
}

/// Whether an error says what a problem is.
pub open spec fn is_problem(error: ArtifactCacheError, problem: Problem) -> bool {
    match problem {
        Problem::Rejected(message) => is_invalid_spec(error, message),
        Problem::Failed { operation, path, source } => is_io(error, operation, path, source),
    }
}

/// Whether a check came out as a problem says.
pub open spec fn shows(result: Result<(), ArtifactCacheError>, problem: Option<Problem>) -> bool {
    match (result, problem) {
        (Ok(()), None) => true,
        (Err(error), Some(problem)) => is_problem(error, problem),
        _ => false,
    }
}

/// Whether there is one observation for each path of a description.
pub open spec fn covers(observed: BoundaryObservations, spec: ArtifactCacheSpecView) -> bool {
    &&& observed.inputs@.len() == spec.inputs.len()
    &&& observed.tools@.len() == spec.tools.len()
    &&& observed.outputs@.len() == spec.outputs.len()
    &&& observed.cargo_inputs@.len() == spec.cargo_build_inputs.len()
    &&& forall|i: int|
        0 <= i < spec.cargo_build_inputs.len() ==> covers_resolution(
            #[trigger] observed.cargo_inputs@[i],
            spec.cargo_build_inputs[i].resolved,
        )
}

/// Whether there is one observation for each path of a resolution.
pub open spec fn covers_resolution(observed: CargoObservation, resolved: ResolvedView) -> bool {
    &&& observed.exclusions@.len() == resolved.exclusions.len()
    &&& observed.inputs@.len() == resolved.inputs.len()
}

/// Whether a path lies at or, for a directory, below what was observed.
pub open spec fn overlaps_observed(candidate: Seq<u8>, canonical: Seq<u8>, directory: bool) -> bool {
    same_path(candidate, canonical) || (directory && is_within(candidate, canonical))
}

/// What the exclusions from `from` on decide about a path, if anything.
pub open spec fn exclusion_verdict(
    resolved: ResolvedView,
    observed: Seq<Result<Vec<u8>, String>>,
    candidate: Seq<u8>,
    from: int,
) -> Option<Result<bool, Problem>>
    decreases observed.len() - from,
{
    if from < 0 || from >= observed.len() {
        None
    } else {
        match observed[from] {
            Err(cause) => Some(
                Err(
                    Problem::Failed {
                        operation: "resolve Cargo build input exclusion"@,
                        path: resolved.exclusions[from],
                        source: cause@,
                    },
                ),
            ),
            Ok(root) => if is_within(candidate, root@) {
                Some(Ok(false))
            } else {
                exclusion_verdict(resolved, observed, candidate, from + 1)
            },
        }
    }
}

/// Whether the inputs from `from` on cover a path.
pub open spec fn input_verdict(
    resolved: ResolvedView,
    observed: Seq<PathObservation>,
    candidate: Seq<u8>,
    from: int,
) -> Result<bool, Problem>
    decreases observed.len() - from,
{
    if from < 0 || from >= observed.len() {
        Ok(false)
    } else {
        match (observed[from].canonical, observed[from].is_directory) {
            (Err(cause), _) => Err(
                Problem::Failed {
                    operation: "canonicalize resolved Cargo build input"@,
                    path: resolved.inputs[from].path,
                    source: cause@,
                },
            ),
            (Ok(canonical), Err(cause)) => Err(
                Problem::Failed {
                    operation: "inspect resolved Cargo build input"@,
                    path: canonical@,
                    source: cause@,
                },
            ),
            (Ok(canonical), Ok(directory)) => if overlaps_observed(
                candidate,
                canonical@,
                directory,
            ) {
                Ok(true)
            } else {
                input_verdict(resolved, observed, candidate, from + 1)
            },
        }
    }
}

/// Whether a resolved Cargo input set watches a path: an input covers it and no exclusion does.
pub open spec fn watch_verdict(
    resolved: ResolvedView,
    observed: CargoObservation,
    candidate: Seq<u8>,
) -> Result<bool, Problem> {
    match exclusion_verdict(resolved, observed.exclusions@, candidate, 0) {
        Some(verdict) => verdict,
        None => input_verdict(resolved, observed.inputs@, candidate, 0),
    }
}

/// What is wrong with where one declared path lies.
pub open spec fn declared_problem(
    kind: Seq<char>,
    declared: DeclaredView,
    observed: PathObservation,
    root: Seq<u8>,
) -> Option<Problem> {
    match observed.canonical {
        Err(cause) => Some(
            Problem::Failed {
                operation: "canonicalize declared artifact cache path"@,
                path: declared.path,
                source: cause@,
            },
        ),
        Ok(canonical) => if is_within(canonical@, root) {
            Some(
                Problem::Rejected(
                    kind + " `"@ + declared.label
                        + "` must not be located inside the artifact cache root"@,
                ),
            )
        } else {
            match observed.is_directory {
                Err(cause) => Some(
                    Problem::Failed {
                        operation: "inspect declared artifact cache path"@,
                        path: canonical@,
                        source: cause@,
                    },
                ),
                Ok(_) => None,
            }
        },
    }
}

/// The first problem of the first `upto` declared paths.
pub open spec fn declared_problems(
    kind: Seq<char>,
    declared: Seq<DeclaredView>,
    observed: Seq<PathObservation>,
    root: Seq<u8>,
    upto: int,
) -> Option<Problem>
    decreases upto,
{
    if upto <= 0 {
        None
    } else {
        first_problem(
            declared_problems(kind, declared, observed, root, upto - 1),
            declared_problem(kind, declared[upto - 1], observed[upto - 1], root),
        )
    }
}

/// The first problem between a path and the first `upto` resolved Cargo input sets.
///
/// `before` and `after` stand around the label of the input set that watches
/// the path.
pub open spec fn watch_problems(
    inputs: Seq<CargoInputView>,
    observed: Seq<CargoObservation>,
    candidate: Seq<u8>,
    before: Seq<char>,
    after: Seq<char>,
    upto: int,
) -> Option<Problem>
    decreases upto,
{
    if upto <= 0 {
        None
    } else {
        first_problem(
            watch_problems(inputs, observed, candidate, before, after, upto - 1),
            match watch_verdict(inputs[upto - 1].resolved, observed[upto - 1], candidate) {
                Err(problem) => Some(problem),
                Ok(true) => Some(Problem::Rejected(before + inputs[upto - 1].label + after)),
                Ok(false) => None,
            },
        )
    }
}

/// Whether a declared path covers a destination.
pub open spec fn covers_destination(observed: PathObservation, destination: Seq<u8>) -> bool {
    observed.canonical matches Ok(canonical) && overlaps_observed(
        destination,
        canonical@,
        observed.is_directory == Ok::<bool, String>(true),
    )
}

/// The first overlap of a destination with the first `upto` declared paths.
pub open spec fn overlap_problems(
    kind: Seq<char>,
    declared: Seq<DeclaredView>,
    observed: Seq<PathObservation>,
    name: Seq<char>,
    destination: Seq<u8>,
    upto: int,
) -> Option<Problem>
    decreases upto,
{
    if upto <= 0 {
        None
    } else {
        first_problem(
            overlap_problems(kind, declared, observed, name, destination, upto - 1),
            if covers_destination(observed[upto - 1], destination) {
                Some(
                    Problem::Rejected(
                        "output `"@ + name + "` destination overlaps declared "@ + kind + " `"@
                            + declared[upto - 1].label + "`"@,
                    ),
                )
            } else {
                None
            },
        )
    }
}

/// Whether an earlier output resolves to the same destination.
pub open spec fn resolves_alike(
    observed: Seq<DestinationObservation>,
    destination: Seq<u8>,
    at: int,
) -> bool {
    exists|i: int|
        0 <= i < at && ((#[trigger] observed[i]).destination matches Ok(other) && same_path(
            other@,
            destination,
        ))
}

/// What is wrong with what lies at a destination.
pub open spec fn state_problem(
    state: PathState,
    name: Seq<char>,
    destination: Seq<u8>,
) -> Option<Problem> {
    match state {
        PathState::Directory => Some(
            Problem::Rejected(
                "output `"@ + name + "` destination must not be an existing directory"@,
            ),
        ),
        PathState::Failed { message } => Some(
            Problem::Failed {
                operation: "inspect artifact output destination"@,
                path: destination,
                source: message@,
            },
        ),
        _ => None,
    }
}

/// Text before the label of an input set that watches the cache root.
pub open spec fn watched_root_text() -> Seq<char> {
    "artifact cache root must be outside resolved Cargo build inputs `"@
}

/// Text before the label of an input set that watches a destination.
pub open spec fn watched_output_text(name: Seq<char>) -> Seq<char> {
    "output `"@ + name + "` destination must be outside resolved Cargo build inputs `"@
}

/// Text after the label of an input set that watches a path.
pub open spec fn watched_tail() -> Seq<char> {
    "` or inside one of their generated-state exclusions"@
}

/// What is wrong with the output at `at`.
pub open spec fn output_problem(
    spec: ArtifactCacheSpecView,
    observed: BoundaryObservations,
    root: Seq<u8>,
    at: int,
) -> Option<Problem> {
    let output = spec.outputs[at];
    match observed.outputs@[at].destination {
        Err(cause) => Some(
            Problem::Failed {
                operation: "resolve artifact output destination"@,
                path: output.destination,
                source: cause@,
            },
        ),
        Ok(destination) => if is_within(destination@, root) {
            Some(
                Problem::Rejected(
                    "output `"@ + output.name
                        + "` destination must be outside the artifact cache root"@,
                ),
            )
        } else if resolves_alike(observed.outputs@, destination@, at) {
            Some(
                Problem::Rejected(
                    "output `"@ + output.name
                        + "` resolves to the same destination as another output"@,
                ),
            )
        } else {
            first_problem(
                overlap_problems(
                    "input"@,
                    spec.inputs,
                    observed.inputs@,
                    output.name,
                    destination@,
                    spec.inputs.len() as int,
                ),
                first_problem(
                    overlap_problems(
                        "tool"@,
                        spec.tools,
                        observed.tools@,
                        output.name,
                        destination@,
                        spec.tools.len() as int,
                    ),
                    first_problem(
                        watch_problems(
                            spec.cargo_build_inputs,
                            observed.cargo_inputs@,
                            destination@,
                            watched_output_text(output.name),
                            watched_tail(),
                            spec.cargo_build_inputs.len() as int,
                        ),
                        state_problem(observed.outputs@[at].state, output.name, destination@),
                    ),
                ),
            )
        },
    }
}

/// The first problem of the first `upto` outputs.
pub open spec fn output_problems(
    spec: ArtifactCacheSpecView,
    observed: BoundaryObservations,
    root: Seq<u8>,
    upto: int,
) -> Option<Problem>
    decreases upto,
{
    if upto <= 0 {
        None
    } else {
        first_problem(
            output_problems(spec, observed, root, upto - 1),
            output_problem(spec, observed, root, upto - 1),
        )
    }
}

/// What is wrong with where the paths of a description lie.
pub open spec fn boundary_problem(
    spec: ArtifactCacheSpecView,
    observed: BoundaryObservations,
) -> Option<Problem> {
    match observed.cache_root {
        Err(cause) => Some(
            Problem::Failed {
                operation: "resolve artifact cache root"@,
                path: spec.cache_root,
                source: cause@,
            },
        ),
        Ok(root) => first_problem(
            declared_problems(
                "input"@,
                spec.inputs,
                observed.inputs@,
                root@,
                spec.inputs.len() as int,
            ),
            first_problem(
                declared_problems(
                    "tool"@,
                    spec.tools,
                    observed.tools@,
                    root@,
                    spec.tools.len() as int,
                ),
                first_problem(
                    watch_problems(
                        spec.cargo_build_inputs,
                        observed.cargo_inputs@,
                        root@,
                        watched_root_text(),
                        watched_tail(),
                        spec.cargo_build_inputs.len() as int,
                    ),
                    output_problems(spec, observed, root@, spec.outputs.len() as int),
                ),
            ),
        ),
    }
}

/// Whether a resolved Cargo input set watches a path: an input covers it and no exclusion does.
pub fn resolved_cargo_inputs_watch_path(
    resolved: &ResolvedCargoBuildInputs,
    observed: &CargoObservation,
    candidate: &[u8],
) -> (result: Result<bool, ArtifactCacheError>)
    requires
        covers_resolution(*observed, resolved@),
    ensures
        match (result, watch_verdict(resolved@, *observed, candidate@)) {
            (Ok(watched), Ok(expected)) => watched == expected,
            (Err(error), Err(problem)) => is_problem(error, problem),
            _ => false,
        },
{
    let mut at: usize = 0;
    while at < observed.exclusions.len()
        invariant
            at <= observed.exclusions@.len(),
            covers_resolution(*observed, resolved@),
            watch_verdict(resolved@, *observed, candidate@) == match exclusion_verdict(
                resolved@,
                observed.exclusions@,
                candidate@,
                at as int,
            ) {
                Some(verdict) => verdict,
                None => input_verdict(resolved@, observed.inputs@, candidate@, 0),
            },
        decreases observed.exclusions.len() - at,
    {
        match &observed.exclusions[at] {
            Err(cause) => {
                assert(resolved@.exclusions[at as int] == resolved.exclusions@[at as int]@);
                return Err(
                    io_failure(
                        "resolve Cargo build input exclusion",
                        copy_bytes(resolved.exclusions()[at].as_slice()),
                        cause.clone(),
                    ),
                );
            },
            Ok(root) => {
                if starts_with(candidate, root.as_slice()) {
                    return Ok(false);
                }
            },
        }
        at = at + 1;
    }
    at = 0;
    while at < observed.inputs.len()
        invariant
            at <= observed.inputs@.len(),
            covers_resolution(*observed, resolved@),
            watch_verdict(resolved@, *observed, candidate@) == input_verdict(
                resolved@,
                observed.inputs@,
                candidate@,
                at as int,
            ),
        decreases observed.inputs.len() - at,
    {
        let input = &observed.inputs[at];
        match &input.canonical {
            Err(cause) => {
                assert(resolved@.inputs[at as int] == resolved.inputs@[at as int]@);
                return Err(
                    io_failure(
                        "canonicalize resolved Cargo build input",
                        copy_bytes(resolved.inputs()[at].path()),
                        cause.clone(),
                    ),
                );
            },
            Ok(canonical) => match &input.is_directory {
                Err(cause) => {
                    return Err(
                        io_failure(
                            "inspect resolved Cargo build input",
                            copy_bytes(canonical.as_slice()),
                            cause.clone(),
                        ),
                    );
                },
                Ok(directory) => {
                    if paths_equal(candidate, canonical.as_slice()) || (*directory && starts_with(
                        candidate,
                        canonical.as_slice(),
                    )) {
                        return Ok(true);
                    }
                },
            },
        }
        at = at + 1;
    }
    Ok(false)
}

fn check_declared(
    kind: &str,
    declared: &DeclaredPath,
    observed: &PathObservation,
    root: &[u8],
) -> (result: Result<(), ArtifactCacheError>)
    ensures
        shows(result, declared_problem(kind@, declared@, *observed, root@)),
{
    match &observed.canonical {
        Err(cause) => Err(
            io_failure(
                "canonicalize declared artifact cache path",
                copy_bytes(declared.path.as_slice()),
                cause.clone(),
            ),
        ),
        Ok(canonical) => {
            if starts_with(canonical.as_slice(), root) {
                let mut message = kind.to_owned();
                message.append(" `");
                message.append(declared.label.as_str());
                message.append("` must not be located inside the artifact cache root");
                return Err(invalid_spec(message));
            }
            match &observed.is_directory {
                Err(cause) => Err(
                    io_failure(
                        "inspect declared artifact cache path",
                        copy_bytes(canonical.as_slice()),
                        cause.clone(),
                    ),
                ),
                Ok(_) => Ok(()),
            }
        },
    }
}

proof fn lemma_declared_problems(
    kind: Seq<char>,
    declared: Seq<DeclaredView>,
    observed: Seq<PathObservation>,
    root: Seq<u8>,
    at: int,
    upto: int,
)
    requires
        0 <= at < upto,
        declared_problems(kind, declared, observed, root, at) is None,
        declared_problem(kind, declared[at], observed[at], root) is Some,
    ensures
        declared_problems(kind, declared, observed, root, upto) == declared_problem(
            kind,
            declared[at],
            observed[at],
            root,
        ),
    decreases upto,
{
    if upto > at + 1 {
        lemma_declared_problems(kind, declared, observed, root, at, upto - 1);
    }
}

fn check_declared_paths(
    kind: &str,
    declared: &Vec<DeclaredPath>,
    observed: &Vec<PathObservation>,
    root: &[u8],
) -> (result: Result<(), ArtifactCacheError>)
    requires
        observed@.len() == declared@.len(),
    ensures
        shows(
            result,
            declared_problems(
                kind@,
                declared_views(declared@),
                observed@,
                root@,
                declared@.len() as int,
            ),
        ),
{
    let ghost views = declared_views(declared@);
    let mut at: usize = 0;
    while at < declared.len()
        invariant
            at <= declared@.len(),
            observed@.len() == declared@.len(),
            views == declared_views(declared@),
            declared_problems(kind@, views, observed@, root@, at as int) is None,
        decreases declared.len() - at,
    {
        assert(views[at as int] == declared@[at as int]@);
        let checked = check_declared(kind, &declared[at], &observed[at], root);
        if checked.is_err() {
            proof {
                lemma_declared_problems(
                    kind@,
                    views,
                    observed@,
                    root@,
                    at as int,
                    declared@.len() as int,
                );
            }
            return checked;
        }
        at = at + 1;
    }
    Ok(())
}

proof fn lemma_watch_problems(
    inputs: Seq<CargoInputView>,
    observed: Seq<CargoObservation>,
    candidate: Seq<u8>,
    before: Seq<char>,
    after: Seq<char>,
    at: int,
    upto: int,
)
    requires
        0 <= at <= upto,
        watch_problems(inputs, observed, candidate, before, after, at) is Some,
    ensures
        watch_problems(inputs, observed, candidate, before, after, upto) == watch_problems(
            inputs,
            observed,
            candidate,
            before,
            after,
            at,
        ),
    decreases upto,
{
    if upto > at {
        lemma_watch_problems(inputs, observed, candidate, before, after, at, upto - 1);
    }
}

fn check_watched(
    inputs: &Vec<CargoBuildInputSet>,
    observed: &Vec<CargoObservation>,
    candidate: &[u8],
    before: &str,
    after: &str,
) -> (result: Result<(), ArtifactCacheError>)
    requires
        observed@.len() == inputs@.len(),
        forall|i: int|
            0 <= i < inputs@.len() ==> covers_resolution(
                #[trigger] observed@[i],
                cargo_views(inputs@)[i].resolved,
            ),
    ensures
        shows(
            result,
            watch_problems(
                cargo_views(inputs@),
                observed@,
                candidate@,
                before@,
                after@,
                inputs@.len() as int,
            ),
        ),
{
    let ghost views = cargo_views(inputs@);
    let mut at: usize = 0;
    while at < inputs.len()
        invariant
            at <= inputs@.len(),
            observed@.len() == inputs@.len(),
            views == cargo_views(inputs@),
            forall|i: int|
                0 <= i < inputs@.len() ==> covers_resolution(
                    #[trigger] observed@[i],
                    views[i].resolved,
                ),
            watch_problems(views, observed@, candidate@, before@, after@, at as int) is None,
        decreases inputs.len() - at,
    {
        assert(views[at as int] == inputs@[at as int]@);
        assert(covers_resolution(observed@[at as int], views[at as int].resolved));
        match resolved_cargo_inputs_watch_path(&inputs[at].resolved, &observed[at], candidate) {
            Err(error) => {
                proof {
                    lemma_watch_problems(
                        views,
                        observed@,
                        candidate@,
                        before@,
                        after@,
                        at + 1,
                        inputs@.len() as int,
                    );
                }
                return Err(error);
            },
            Ok(watched) => {
                if watched {
                    proof {
                        lemma_watch_problems(
                            views,
                            observed@,
                            candidate@,
                            before@,
                            after@,
                            at + 1,
                            inputs@.len() as int,
                        );
                    }
                    let mut message = before.to_owned();
                    message.append(inputs[at].label.as_str());
                    message.append(after);
                    return Err(invalid_spec(message));
                }
            },
        }
        at = at + 1;
    }
    Ok(())
}

proof fn lemma_overlap_problems(
    kind: Seq<char>,
    declared: Seq<DeclaredView>,
    observed: Seq<PathObservation>,
    name: Seq<char>,
    destination: Seq<u8>,
    at: int,
    upto: int,
)
    requires
        0 <= at <= upto,
        overlap_problems(kind, declared, observed, name, destination, at) is Some,
    ensures
        overlap_problems(kind, declared, observed, name, destination, upto) == overlap_problems(
            kind,
            declared,
            observed,
            name,
            destination,
            at,
        ),
    decreases upto,
{
    if upto > at {
        lemma_overlap_problems(kind, declared, observed, name, destination, at, upto - 1);
    }
}

fn check_overlaps(
    kind: &str,
    declared: &Vec<DeclaredPath>,
    observed: &Vec<PathObservation>,
    name: &str,
    destination: &[u8],
) -> (result: Result<(), ArtifactCacheError>)
    requires
        observed@.len() == declared@.len(),
    ensures
        shows(
            result,
            overlap_problems(
                kind@,
                declared_views(declared@),
                observed@,
                name@,
                destination@,
                declared@.len() as int,
            ),
        ),
{
    let ghost views = declared_views(declared@);
    let mut at: usize = 0;
    while at < declared.len()
        invariant
            at <= declared@.len(),
            observed@.len() == declared@.len(),
            views == declared_views(declared@),
            overlap_problems(kind@, views, observed@, name@, destination@, at as int) is None,
        decreases declared.len() - at,
    {
        assert(views[at as int] == declared@[at as int]@);
        let directory = match &observed[at].is_directory {
            Ok(directory) => *directory,
            Err(_) => false,
        };
        let overlap = match &observed[at].canonical {
            Ok(canonical) => paths_equal(destination, canonical.as_slice()) || (directory
                && starts_with(destination, canonical.as_slice())),
            Err(_) => false,
        };
        assert(overlap == covers_destination(observed@[at as int], destination@));
        if overlap {
            proof {
                lemma_overlap_problems(
                    kind@,
                    views,
                    observed@,
                    name@,
                    destination@,
                    at + 1,
                    declared@.len() as int,
                );
            }
            let mut message = "output `".to_owned();
            message.append(name);
            message.append("` destination overlaps declared ");
            message.append(kind);
            message.append(" `");
            message.append(declared[at].label.as_str());
            message.append("`");
            return Err(invalid_spec(message));
        }
        at = at + 1;
    }
    Ok(())
}

fn check_output(
    spec: &ArtifactCacheSpec,
    observed: &BoundaryObservations,
    root: &[u8],
    at: usize,
) -> (result: Result<(), ArtifactCacheError>)
    requires
        covers(*observed, spec@),
        at < spec@.outputs.len(),
    ensures
        shows(result, output_problem(spec@, *observed, root@, at as int)),
{
    let outputs = spec.outputs();
    assert(output_views(outputs@).len() == outputs@.len());
    let output = &outputs[at];
    assert(spec@.outputs[at as int] == output@);
    let name = output.name.as_str();
    let destination = match &observed.outputs[at].destination {
        Err(cause) => {
            return Err(
                io_failure(
                    "resolve artifact output destination",
                    copy_bytes(output.destination.as_slice()),
                    cause.clone(),
                ),
            );
        },
        Ok(destination) => destination.as_slice(),
    };
    if starts_with(destination, root) {
        let mut message = "output `".to_owned();
        message.append(name);
        message.append("` destination must be outside the artifact cache root");
        return Err(invalid_spec(message));
    }
    let mut alike = false;
    let mut earlier: usize = 0;
    while earlier < at
        invariant
            earlier <= at < observed.outputs@.len(),
            alike == resolves_alike(observed.outputs@, destination@, earlier as int),
        decreases at - earlier,
    {
        let ghost other = observed.outputs@[earlier as int];
        match &observed.outputs[earlier].destination {
            Ok(other) => {
                if paths_equal(other.as_slice(), destination) {
                    alike = true;
                }
            },
            Err(_) => {},
        }
        assert(alike == resolves_alike(observed.outputs@, destination@, earlier + 1)) by {
            if resolves_alike(observed.outputs@, destination@, earlier + 1) {
                let i = choose|i: int|
                    0 <= i < earlier + 1 && ((#[trigger] observed.outputs@[i]).destination matches Ok(
                        o,
                    ) && same_path(o@, destination@));
                if i < earlier {
                    assert(resolves_alike(observed.outputs@, destination@, earlier as int));
                }
            }
        }
        earlier = earlier + 1;
    }
    if alike {
        let mut message = "output `".to_owned();
        message.append(name);
        message.append("` resolves to the same destination as another output");
        return Err(invalid_spec(message));
    }
    let inputs = spec.inputs();
    let tools = spec.tools();
    let cargo_inputs = spec.cargo_build_inputs();
    proof {
        assert(declared_views(inputs@).len() == inputs@.len());
        assert(declared_views(tools@).len() == tools@.len());
        assert(cargo_views(cargo_inputs@).len() == cargo_inputs@.len());
    }
    check_overlaps("input", inputs, &observed.inputs, name, destination)?;
    check_overlaps("tool", tools, &observed.tools, name, destination)?;
    let mut before = "output `".to_owned();
    before.append(name);
    before.append("` destination must be outside resolved Cargo build inputs `");
    check_watched(
        cargo_inputs,
        &observed.cargo_inputs,
        destination,
        before.as_str(),
        "` or inside one of their generated-state exclusions",
    )?;
    match &observed.outputs[at].state {
        PathState::Directory => {
            let mut message = "output `".to_owned();
            message.append(name);
            message.append("` destination must not be an existing directory");
            Err(invalid_spec(message))
        },
        PathState::Failed { message } => Err(
            io_failure(
                "inspect artifact output destination",
                copy_bytes(destination),
                message.clone(),
            ),
        ),
        _ => Ok(()),
    }
}

proof fn lemma_output_problems(
    spec: ArtifactCacheSpecView,
    observed: BoundaryObservations,
    root: Seq<u8>,
    at: int,
    upto: int,
)
    requires
        0 <= at < upto,
        output_problems(spec, observed, root, at) is None,
        output_problem(spec, observed, root, at) is Some,
    ensures
        output_problems(spec, observed, root, upto) == output_problem(spec, observed, root, at),
    decreases upto,
{
    if upto > at + 1 {
        lemma_output_problems(spec, observed, root, at, upto - 1);
    }
}

/// Check where the paths of a description lie.
///
/// Inputs and tools stay outside the cache, outputs stay outside the cache
/// and do not overlap inputs, tools or each other, and neither the cache nor
/// an output lies among watched Cargo inputs.
pub fn validate_filesystem_boundaries(
    spec: &ArtifactCacheSpec,
    observed: &BoundaryObservations,
) -> (result: Result<(), ArtifactCacheError>)
    requires
        covers(*observed, spec@),
    ensures
        shows(result, boundary_problem(spec@, *observed)),
{
    let root = match &observed.cache_root {
        Err(cause) => {
            return Err(
                io_failure(
                    "resolve artifact cache root",
                    copy_bytes(spec.cache_root()),
                    cause.clone(),
                ),
            );
        },
        Ok(root) => root.as_slice(),
    };
    let inputs = spec.inputs();
    let tools = spec.tools();
    let cargo_inputs = spec.cargo_build_inputs();
    let outputs = spec.outputs();
    proof {
        assert(declared_views(inputs@).len() == inputs@.len());
        assert(declared_views(tools@).len() == tools@.len());
        assert(cargo_views(cargo_inputs@).len() == cargo_inputs@.len());
        assert(output_views(outputs@).len() == outputs@.len());
    }
    check_declared_paths("input", inputs, &observed.inputs, root)?;
    check_declared_paths("tool", tools, &observed.tools, root)?;
    check_watched(
        cargo_inputs,
        &observed.cargo_inputs,
        root,
        "artifact cache root must be outside resolved Cargo build inputs `",
        "` or inside one of their generated-state exclusions",
    )?;
    let mut at: usize = 0;
    while at < outputs.len()
        invariant
            at <= outputs@.len(),
            outputs@.len() == spec@.outputs.len(),
            covers(*observed, spec@),
            output_problems(spec@, *observed, root@, at as int) is None,
            boundary_problem(spec@, *observed) == output_problems(
                spec@,
                *observed,
                root@,
                outputs@.len() as int,
            ),
        decreases outputs.len() - at,
    {
        let checked = check_output(spec, observed, root, at);
        if checked.is_err() {
            proof {
                lemma_output_problems(
                    spec@,
                    *observed,
                    root@,
                    at as int,
                    outputs@.len() as int,
                );
            }
            return checked;
        }
        at = at + 1;
    }
    Ok(())
}

proof fn lemma_no_declared_problem(
    kind: Seq<char>,
    declared: Seq<DeclaredView>,
    observed: Seq<PathObservation>,
    root: Seq<u8>,
    at: int,
    upto: int,
)
    requires
        0 <= at < upto,
        declared_problems(kind, declared, observed, root, upto) is None,
    ensures
        declared_problem(kind, declared[at], observed[at], root) is None,
    decreases upto,
{
    if at < upto - 1 {
        lemma_no_declared_problem(kind, declared, observed, root, at, upto - 1);
    }
}

proof fn lemma_no_overlap_problem(
    kind: Seq<char>,
    declared: Seq<DeclaredView>,
    observed: Seq<PathObservation>,
    name: Seq<char>,
    destination: Seq<u8>,
    at: int,
    upto: int,
)
    requires
        0 <= at < upto,
        overlap_problems(kind, declared, observed, name, destination, upto) is None,
    ensures
        !covers_destination(observed[at], destination),
    decreases upto,
{
    if at < upto - 1 {
        lemma_no_overlap_problem(kind, declared, observed, name, destination, at, upto - 1);
    }
}

proof fn lemma_no_output_problem(
    spec: ArtifactCacheSpecView,
    observed: BoundaryObservations,
    root: Seq<u8>,
    at: int,
    upto: int,
)
    requires
        0 <= at < upto,
        output_problems(spec, observed, root, upto) is None,
    ensures
        output_problem(spec, observed, root, at) is None,
    decreases upto,
{
    if at < upto - 1 {
        lemma_no_output_problem(spec, observed, root, at, upto - 1);
    }
}

/// Accepted inputs and tools lie outside the cache.
pub proof fn lemma_accepted_inputs_are_outside(
    spec: ArtifactCacheSpecView,
    observed: BoundaryObservations,
)
    requires
        covers(observed, spec),
        boundary_problem(spec, observed) is None,
    ensures
        observed.cache_root is Ok,
        forall|i: int|
            0 <= i < spec.inputs.len() ==> ((#[trigger] observed.inputs@[i]).canonical matches Ok(path)
                && !is_within(path@, observed.cache_root->Ok_0@)),
        forall|i: int|
            0 <= i < spec.tools.len() ==> ((#[trigger] observed.tools@[i]).canonical matches Ok(path)
                && !is_within(path@, observed.cache_root->Ok_0@)),
{
    let root = observed.cache_root->Ok_0@;
    assert forall|i: int| 0 <= i < spec.inputs.len() implies ((
    #[trigger] observed.inputs@[i]).canonical matches Ok(path) && !is_within(path@, root)) by {
        lemma_no_declared_problem(
            "input"@,
            spec.inputs,
            observed.inputs@,
            root,
            i,
            spec.inputs.len() as int,
        );
    }
    assert forall|i: int| 0 <= i < spec.tools.len() implies ((
    #[trigger] observed.tools@[i]).canonical matches Ok(path) && !is_within(path@, root)) by {
        lemma_no_declared_problem(
            "tool"@,
            spec.tools,
            observed.tools@,
            root,
            i,
            spec.tools.len() as int,
        );
    }
}

/// An accepted output lies outside the cache, covers no input or tool, is no directory, and no
/// other output resolves to the same place.
pub proof fn lemma_accepted_output_is_apart(
    spec: ArtifactCacheSpecView,
    observed: BoundaryObservations,
    at: int,
)
    requires
        covers(observed, spec),
        boundary_problem(spec, observed) is None,
        0 <= at < spec.outputs.len(),
    ensures
        observed.cache_root is Ok,
        observed.outputs@[at].destination is Ok,
        !is_within(observed.outputs@[at].destination->Ok_0@, observed.cache_root->Ok_0@),
        observed.outputs@[at].state !is Directory,
        forall|i: int|
            0 <= i < spec.inputs.len() ==> !covers_destination(
                #[trigger] observed.inputs@[i],
                observed.outputs@[at].destination->Ok_0@,
            ),
        forall|i: int|
            0 <= i < spec.tools.len() ==> !covers_destination(
                #[trigger] observed.tools@[i],
                observed.outputs@[at].destination->Ok_0@,
            ),
        forall|i: int|
            0 <= i < spec.outputs.len() && i != at ==> !same_path(
                (#[trigger] observed.outputs@[i]).destination->Ok_0@,
                observed.outputs@[at].destination->Ok_0@,
            ),
{
    let root = observed.cache_root->Ok_0@;
    let upto = spec.outputs.len() as int;
    lemma_no_output_problem(spec, observed, root, at, upto);
    let destination = observed.outputs@[at].destination->Ok_0@;
    let name = spec.outputs[at].name;
    assert forall|i: int| 0 <= i < spec.inputs.len() implies !covers_destination(
        #[trigger] observed.inputs@[i],
        destination,
    ) by {
        lemma_no_overlap_problem(
            "input"@,
            spec.inputs,
            observed.inputs@,
            name,
            destination,
            i,
            spec.inputs.len() as int,
        );
    }
    assert forall|i: int| 0 <= i < spec.tools.len() implies !covers_destination(
        #[trigger] observed.tools@[i],
        destination,
    ) by {
        lemma_no_overlap_problem(
            "tool"@,
            spec.tools,
            observed.tools@,
            name,
            destination,
            i,
            spec.tools.len() as int,
        );
    }
    assert forall|i: int| 0 <= i < spec.outputs.len() && i != at implies !same_path(
        (#[trigger] observed.outputs@[i]).destination->Ok_0@,
        destination,
    ) by {
        lemma_no_output_problem(spec, observed, root, i, upto);
        let other = observed.outputs@[i].destination->Ok_0@;
        if same_path(other, destination) {
            if i < at {
                assert(resolves_alike(observed.outputs@, destination, at));
            } else {
                assert(observed.outputs@[at].destination matches Ok(o) && same_path(o@, other));
                assert(resolves_alike(observed.outputs@, other, i));
            }
        }
    }
}

} // verus!

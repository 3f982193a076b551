//! Search for executables that serve as artifact-cache tool inputs.
//!
//! The search says which path to look at next; its caller looks, and hands
//! over what it found.

use vstd::prelude::*;
use vstd::string::*;
use crate::paths::{
    component_spans, components, is_absolute, is_absolute_path, join, joined, spans_view,
};
use crate::settings::copy_bytes;
use crate::text::{lossy, lossy_text};
use crate::tree::byte_strings;

verus! {

/// The byte that separates the directories of a search path.
pub const SEARCH_PATH_SEPARATOR: u8 = 58;

/// Permission bits of which one makes a file executable.
pub const EXECUTABLE_BITS: u32 = 0o111;

/// Kind of a failed search.
#[derive(Clone, Copy, Debug, PartialEq, Eq, Structural)]
pub enum ToolErrorKind {
    /// The name of the executable is not usable.
    InvalidInput,
    /// No such file.
    NotFound,
    /// The file may not be executed or reached.
    PermissionDenied,
    /// Anything else.
    Other,
}

/// Why an executable cannot be resolved.
#[derive(Clone, Debug)]
pub struct ToolError {
    /// Kind of the failure.
    pub kind: ToolErrorKind,
    /// Rendered cause.
    pub message: String,
}

/// What was found at a candidate path.
#[derive(Clone, Debug)]
pub enum CandidateState {
    /// The candidate was resolved and inspected.
    Found {
        /// Its canonical path.
        canonical: Vec<u8>,
        /// Whether it is a regular file.
        is_file: bool,
        /// Its permission bits.
        mode: u32,
    },
    /// The candidate could not be resolved or inspected.
    Failed(ToolError),
}

/// Where to go on with a search.
#[derive(Clone, Debug)]
pub enum SearchStep {
    /// Look at this path, and search again with what was found there.
    Inspect(Vec<u8>),
    /// The executable, as a canonical path to a regular file.
    Resolved(Vec<u8>),
    /// There is no such executable.
    Failed(ToolError),
}

/// Whether the permission bits let anybody execute a file.
pub open spec fn may_execute(mode: u32) -> bool {
    mode & EXECUTABLE_BITS != 0
}

/// What a candidate amounts to: a canonical path, or the kind and text of an error.
pub open spec fn executable_at(
    path: Seq<u8>,
    state: CandidateState,
) -> Result<Seq<u8>, (ToolErrorKind, Seq<char>)> {
    match state {
        CandidateState::Failed(error) => Err((error.kind, error.message@)),
        CandidateState::Found { canonical, is_file, mode } => if !is_file {
            Err(
                (
                    ToolErrorKind::NotFound,
                    "executable path is not a regular file: "@ + lossy_text(path),
                ),
            )
        } else if !may_execute(mode) {
            Err((ToolErrorKind::PermissionDenied, "file is not executable: "@ + lossy_text(path)))
        } else {
            Ok(canonical@)
        },
    }
}

fn tool_error(kind: ToolErrorKind, before: &str, name: &[u8], after: &str) -> (error: ToolError)
    ensures
        error.kind == kind,
        error.message@ == before@ + lossy_text(name@) + after@,
{
    let mut message = before.to_owned();
    message.append(lossy(name).as_str());
    message.append(after);
    ToolError { kind, message }
}

/// What a candidate amounts to.
pub fn canonical_executable(path: &[u8], state: &CandidateState) -> (result: Result<
    Vec<u8>,
    ToolError,
>)
    ensures
        match (result, executable_at(path@, *state)) {
            (Ok(canonical), Ok(expected)) => canonical@ == expected,
            (Err(error), Err((kind, message))) => error.kind == kind && error.message@ == message,
            _ => false,
        },
{
    proof {
        reveal_strlit("");
    }
    match state {
        CandidateState::Failed(error) => Err(
            ToolError { kind: error.kind, message: error.message.clone() },
        ),
        CandidateState::Found { canonical, is_file, mode } => {
            if !*is_file {
                let error = tool_error(
                    ToolErrorKind::NotFound,
                    "executable path is not a regular file: ",
                    path,
                    "",
                );
                assert(error.message@ =~= "executable path is not a regular file: "@ + lossy_text(
                    path@,
                ));
                return Err(error);
            }
            if *mode & EXECUTABLE_BITS == 0 {
                let error = tool_error(
                    ToolErrorKind::PermissionDenied,
                    "file is not executable: ",
                    path,
                    "",
                );
                assert(error.message@ =~= "file is not executable: "@ + lossy_text(path@));
                return Err(error);
            }
            Ok(copy_bytes(canonical.as_slice()))
        },
    }
}

/// The directories of a search path, split at every separator.
pub open spec fn search_directories(search_path: Seq<u8>) -> Seq<Seq<u8>>
    decreases search_path.len(),
{
    let before = search_path.drop_last();
    if search_path.len() == 0 {
        seq![search_path]
    } else if search_path.last() == SEARCH_PATH_SEPARATOR {
        search_directories(before).push(seq![])
    } else {
        let found = search_directories(before);
        found.drop_last().push(found.last().push(search_path.last()))
    }
}

proof fn lemma_search_directories_nonempty(search_path: Seq<u8>)
    ensures
        search_directories(search_path).len() > 0,
    decreases search_path.len(),
{
    if search_path.len() > 0 {
        lemma_search_directories_nonempty(search_path.drop_last());
    }
}

/// The directories of a search path.
///
/// Empty directories are kept: an empty search path holds one.
pub fn split_search_path(search_path: &[u8]) -> (directories: Vec<Vec<u8>>)
    ensures
        byte_strings(directories@) == search_directories(search_path@),
{
    let mut directories: Vec<Vec<u8>> = Vec::new();
    let mut current: Vec<u8> = Vec::new();
    let mut at: usize = 0;
    assert(search_path@.take(0) =~= Seq::<u8>::empty());
    assert(byte_strings(directories@).push(current@) =~= search_directories(search_path@.take(0)));
    while at < search_path.len()
        invariant
            at <= search_path@.len(),
            byte_strings(directories@).push(current@) == search_directories(
                search_path@.take(at as int),
            ),
        decreases search_path.len() - at,
    {
        let byte = search_path[at];
        let ghost so_far = byte_strings(directories@).push(current@);
        proof {
            let longer = search_path@.take(at + 1);
            assert(longer.drop_last() =~= search_path@.take(at as int));
            assert(longer.last() == byte);
            lemma_search_directories_nonempty(search_path@.take(at as int));
            assert(so_far.drop_last() =~= byte_strings(directories@));
        }
        if byte == SEARCH_PATH_SEPARATOR {
            let ghost kept = directories@;
            directories.push(current);
            current = Vec::new();
            assert(byte_strings(directories@) =~= so_far);
            assert(current@ =~= Seq::<u8>::empty());
        } else {
            current.push(byte);
        }
        at = at + 1;
    }
    assert(search_path@.take(at as int) =~= search_path@);
    let ghost kept = byte_strings(directories@).push(current@);
    directories.push(current);
    assert(byte_strings(directories@) =~= kept);
    directories
}

/// The candidate for a program in one directory of a search path.
pub open spec fn candidate_in(
    directory: Seq<u8>,
    program: Seq<u8>,
    current_dir: Seq<u8>,
) -> Seq<u8> {
    let base = if directory.len() == 0 {
        current_dir
    } else if is_absolute_path(directory) {
        directory
    } else {
        joined(current_dir, directory)
    };
    joined(base, program)
}

/// The candidates for a program, in the order of the search path.
pub open spec fn search_candidates(
    program: Seq<u8>,
    search_path: Seq<u8>,
    current_dir: Seq<u8>,
) -> Seq<Seq<u8>> {
    search_directories(search_path).map_values(
        |directory: Seq<u8>| candidate_in(directory, program, current_dir),
    )
}

/// The candidates for a program, in the order of the search path.
pub fn executable_candidates(program: &[u8], search_path: &[u8], current_dir: &[u8]) -> (candidates:
    Vec<Vec<u8>>)
    ensures
        byte_strings(candidates@) == search_candidates(program@, search_path@, current_dir@),
{
    let directories = split_search_path(search_path);
    let ghost all = search_candidates(program@, search_path@, current_dir@);
    let mut candidates: Vec<Vec<u8>> = Vec::new();
    let mut at: usize = 0;
    assert(byte_strings(candidates@) =~= all.take(0));
    while at < directories.len()
        invariant
            at <= directories@.len(),
            byte_strings(directories@) == search_directories(search_path@),
            all == search_candidates(program@, search_path@, current_dir@),
            byte_strings(candidates@) == all.take(at as int),
        decreases directories.len() - at,
    {
        let directory = directories[at].as_slice();
        assert(byte_strings(directories@)[at as int] == directory@);
        let base = if directory.len() == 0 {
            copy_bytes(current_dir)
        } else if is_absolute(directory) {
            copy_bytes(directory)
        } else {
            join(current_dir, directory)
        };
        let ghost before = candidates@;
        candidates.push(join(base.as_slice(), program));
        proof {
            assert(byte_strings(candidates@) =~= byte_strings(before).push(all[at as int]));
            assert(all.take(at + 1) =~= all.take(at as int).push(all[at as int]));
        }
        at = at + 1;
    }
    assert(byte_strings(directories@).len() == directories@.len());
    assert(all.take(at as int) =~= all);
    candidates
}

/// Whether a candidate leaves the search open: nothing usable lies there.
pub open spec fn is_passed_over(path: Seq<u8>, state: CandidateState) -> bool {
    executable_at(path, state) matches Err((kind, _)) && (kind is NotFound
        || kind is PermissionDenied)
}

/// Whether `step` is where a search over `candidates` goes on after `found`.
pub open spec fn is_search_step(
    step: SearchStep,
    program: Seq<u8>,
    candidates: Seq<Seq<u8>>,
    found: Seq<CandidateState>,
) -> bool {
    let upto = if found.len() < candidates.len() {
        found.len()
    } else {
        candidates.len()
    };
    match step {
        SearchStep::Resolved(path) => exists|i: int|
            #![trigger candidates[i]]
            0 <= i < upto && executable_at(candidates[i], found[i]) == Ok::<
                Seq<u8>,
                (ToolErrorKind, Seq<char>),
            >(path@) && (forall|j: int|
                0 <= j < i ==> is_passed_over(#[trigger] candidates[j], found[j])),
        SearchStep::Inspect(path) => {
            &&& upto < candidates.len()
            &&& path@ == candidates[upto as int]
            &&& forall|j: int| 0 <= j < upto ==> is_passed_over(#[trigger] candidates[j], found[j])
        },
        SearchStep::Failed(error) => {
            ||| upto == candidates.len() && (forall|j: int|
                0 <= j < upto ==> is_passed_over(#[trigger] candidates[j], found[j])) && error.kind
                is NotFound && error.message@ == "executable `"@ + lossy_text(program)
                + "` was not found in PATH"@
            ||| exists|i: int|
                #![trigger candidates[i]]
                0 <= i < upto && !is_passed_over(candidates[i], found[i]) && executable_at(
                    candidates[i],
                    found[i],
                ) == Err::<Seq<u8>, (ToolErrorKind, Seq<char>)>((error.kind, error.message@)) && (
                forall|j: int|
                    0 <= j < i ==> is_passed_over(#[trigger] candidates[j], found[j]))
        },
    }
}

/// Where the search for a program in a search path goes on after what was found so far.
///
/// The first candidate that is an executable file is the one; files that are
/// missing or may not be executed are passed over.
pub fn resolve_executable_in(
    program: &[u8],
    search_path: &[u8],
    current_dir: &[u8],
    found: &Vec<CandidateState>,
) -> (step: SearchStep)
    ensures
        is_search_step(
            step,
            program@,
            search_candidates(program@, search_path@, current_dir@),
            found@,
        ),
{
    let candidates = executable_candidates(program, search_path, current_dir);
    let ghost all = search_candidates(program@, search_path@, current_dir@);
    assert(all.len() == candidates@.len());
    let mut at: usize = 0;
    while at < candidates.len()
        invariant
            at <= candidates@.len(),
            at <= found@.len(),
            all == byte_strings(candidates@),
            all == search_candidates(program@, search_path@, current_dir@),
            forall|j: int| 0 <= j < at ==> is_passed_over(#[trigger] all[j], found@[j]),
        decreases candidates.len() - at,
    {
        assert(all[at as int] == candidates@[at as int]@);
        if at >= found.len() {
            return SearchStep::Inspect(copy_bytes(candidates[at].as_slice()));
        }
        match canonical_executable(candidates[at].as_slice(), &found[at]) {
            Ok(path) => {
                return SearchStep::Resolved(path);
            },
            Err(error) => {
                match error.kind {
                    ToolErrorKind::NotFound | ToolErrorKind::PermissionDenied => {},
                    _ => {
                        return SearchStep::Failed(error);
                    },
                }
            },
        }
        at = at + 1;
    }
    SearchStep::Failed(
        tool_error(
            ToolErrorKind::NotFound,
            "executable `",
            program,
            "` was not found in PATH",
        ),
    )
}

/// Whether a program is named by a path, and not searched for.
pub open spec fn is_direct(program: Seq<u8>) -> bool {
    is_absolute_path(program) || components(program).len() > 1
}

/// Resolve one executable exactly as an artifact-cache tool input.
///
/// Paths containing more than one component are resolved directly. Bare
/// program names are searched through `search_path`. The resolved path is
/// canonical and points to a regular file.
pub fn resolve_executable(
    program: &[u8],
    search_path: Option<&Vec<u8>>,
    current_dir: &[u8],
    found: &Vec<CandidateState>,
) -> (step: SearchStep)
    ensures
        if program@.len() == 0 {
            step matches SearchStep::Failed(error) && error.kind is InvalidInput && error.message@
                == "executable name must not be empty"@
        } else if is_direct(program@) {
            let path = joined(current_dir@, program@);
            if found@.len() == 0 {
                step matches SearchStep::Inspect(next) && next@ == path
            } else {
                match (step, executable_at(path, found@[0])) {
                    (SearchStep::Resolved(canonical), Ok(expected)) => canonical@ == expected,
                    (SearchStep::Failed(error), Err((kind, message))) => error.kind == kind
                        && error.message@ == message,
                    _ => false,
                }
            }
        } else {
            match search_path {
                None => step matches SearchStep::Failed(error) && error.kind is NotFound
                    && error.message@ == "cannot resolve executable `"@ + lossy_text(program@)
                    + "` because PATH is unset"@,
                Some(directories) => is_search_step(
                    step,
                    program@,
                    search_candidates(program@, directories@, current_dir@),
                    found@,
                ),
            }
        },
{
    if program.len() == 0 {
        return SearchStep::Failed(
            ToolError {
                kind: ToolErrorKind::InvalidInput,
                message: "executable name must not be empty".to_owned(),
            },
        );
    }
    let parts = component_spans(program);
    assert(spans_view(parts@).len() == components(program@).len());
    if is_absolute(program) || parts.len() > 1 {
        let path = join(current_dir, program);
        if found.len() == 0 {
            return SearchStep::Inspect(path);
        }
        return match canonical_executable(path.as_slice(), &found[0]) {
            Ok(canonical) => SearchStep::Resolved(canonical),
            Err(error) => SearchStep::Failed(error),
        };
    }
    match search_path {
        None => SearchStep::Failed(
            tool_error(
                ToolErrorKind::NotFound,
                "cannot resolve executable `",
                program,
                "` because PATH is unset",
            ),
        ),
        Some(directories) => resolve_executable_in(
            program,
            directories.as_slice(),
            current_dir,
            found,
        ),
    }
}

proof fn lemma_first_decisive(
    candidates: Seq<Seq<u8>>,
    found: Seq<CandidateState>,
    i: int,
    j: int,
)
    requires
        0 <= i,
        0 <= j,
        !is_passed_over(candidates[i], found[i]),
        !is_passed_over(candidates[j], found[j]),
        forall|k: int| 0 <= k < i ==> is_passed_over(#[trigger] candidates[k], found[k]),
        forall|k: int| 0 <= k < j ==> is_passed_over(#[trigger] candidates[k], found[k]),
    ensures
        i == j,
{
    if i < j {
        assert(is_passed_over(candidates[i], found[i]));
    }
    if j < i {
        assert(is_passed_over(candidates[j], found[j]));
    }
}

/// A search goes on in one way only: two resolved paths are equal, and a resolved search does not
/// ask for more or fail.
pub proof fn lemma_search_is_decided(
    left: SearchStep,
    right: SearchStep,
    program: Seq<u8>,
    candidates: Seq<Seq<u8>>,
    found: Seq<CandidateState>,
)
    requires
        is_search_step(left, program, candidates, found),
        is_search_step(right, program, candidates, found),
    ensures
        match (left, right) {
            (SearchStep::Resolved(a), SearchStep::Resolved(b)) => a@ == b@,
            (SearchStep::Inspect(a), SearchStep::Inspect(b)) => a@ == b@,
            (SearchStep::Failed(a), SearchStep::Failed(b)) => a.kind == b.kind && a.message@
                == b.message@,
            _ => false,
        },
{
    let upto = if found.len() < candidates.len() {
        found.len()
    } else {
        candidates.len()
    };
    let decisive = |i: int| 0 <= i < upto && !is_passed_over(candidates[i], found[i]);
    assert forall|i: int, j: int|
        #![trigger candidates[i], candidates[j]]
        decisive(i) && decisive(j) && (forall|k: int|
            0 <= k < i ==> is_passed_over(#[trigger] candidates[k], found[k])) && (forall|k: int|
            0 <= k < j ==> is_passed_over(#[trigger] candidates[k], found[k])) implies i == j by {
        lemma_first_decisive(candidates, found, i, j);
    }
}

/// A file may be executed when its owner, its group or anybody may.
pub proof fn lemma_executable_modes(mode: u32)
    ensures
        may_execute(mode) <==> mode % 2 == 1 || (mode / 8) % 2 == 1 || (mode / 64) % 2 == 1,
{
    assert((mode & 0o111u32) != 0 <==> mode % 2 == 1 || (mode / 8) % 2 == 1 || (mode / 64) % 2 == 1)
        by (bit_vector);
}

/// A program is taken from a path exactly when a regular file that may be executed lies there, and
/// then from where that resolves to.
pub proof fn lemma_programs_are_executable_files(path: Seq<u8>, state: CandidateState)
    ensures
        executable_at(path, state) is Ok <==> (state matches CandidateState::Found {
            is_file,
            mode,
            ..
        } && is_file && may_execute(mode)),
        state matches CandidateState::Found { canonical, is_file, mode } ==> {
            &&& executable_at(path, state) matches Ok(found) ==> found == canonical@
            &&& !is_file ==> executable_at(path, state)->Err_0.0 is NotFound
            &&& is_file && !may_execute(mode) ==> executable_at(path, state)->Err_0.0
                is PermissionDenied
        },
        is_passed_over(path, state) <==> match state {
            CandidateState::Found { is_file, mode, .. } => !is_file || !may_execute(mode),
            CandidateState::Failed(error) => error.kind is NotFound || error.kind
                is PermissionDenied,
        },
{
}

proof fn lemma_one_directory(directory: Seq<u8>)
    requires
        forall|i: int| 0 <= i < directory.len() ==> #[trigger] directory[i] != 58,
    ensures
        search_directories(directory) == seq![directory],
    decreases directory.len(),
{
    if directory.len() > 0 {
        let shorter = directory.drop_last();
        lemma_one_directory(shorter);
        assert(directory[directory.len() - 1] != 58);
        let found = seq![shorter];
        assert(found.last() == shorter);
        assert(shorter.push(directory.last()) =~= directory);
        assert(found.drop_last().push(directory) =~= seq![directory]);
    } else {
        assert(seq![directory] =~= search_directories(directory));
    }
}

/// A search path names its directories between colons, in order; an empty name stands for the
/// current directory, and a relative one lies below it.
pub proof fn lemma_search_paths(
    path: Seq<u8>,
    directory: Seq<u8>,
    program: Seq<u8>,
    current_dir: Seq<u8>,
)
    requires
        forall|i: int| 0 <= i < directory.len() ==> #[trigger] directory[i] != 58,
    ensures
        search_directories(directory) == seq![directory],
        search_directories(path.push(58) + directory) == search_directories(path).push(directory),
        search_candidates(program, path.push(58) + directory, current_dir) == search_candidates(
            program,
            path,
            current_dir,
        ).push(
            joined(
                if directory.len() == 0 {
                    current_dir
                } else if directory[0] == 47 {
                    directory
                } else {
                    joined(current_dir, directory)
                },
                program,
            ),
        ),
    decreases directory.len(),
{
    let whole = path.push(58) + directory;
    lemma_one_directory(directory);
    if directory.len() == 0 {
        assert(whole =~= path.push(58));
        assert(whole.drop_last() =~= path);
        assert(directory =~= Seq::<u8>::empty());
    } else {
        let shorter = directory.drop_last();
        assert forall|i: int| 0 <= i < shorter.len() implies #[trigger] shorter[i] != 58 by {
            assert(directory[i] != 58);
        }
        lemma_search_paths(path, shorter, program, current_dir);
        assert(whole.drop_last() =~= path.push(58) + shorter);
        assert(whole.last() == directory[directory.len() - 1]);
        let found = search_directories(path).push(shorter);
        assert(found.drop_last() =~= search_directories(path));
        assert(shorter.push(directory.last()) =~= directory);
    }
    let view = |one: Seq<u8>| candidate_in(one, program, current_dir);
    assert(search_directories(path).push(directory).map_values(view) =~= search_directories(
        path,
    ).map_values(view).push(view(directory)));
}

} // verus!

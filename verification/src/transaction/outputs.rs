//! Inspection of output files and the manifest of a committed entry.
//!
//! The functions decide on what was found in a staging directory or in a
//! committed entry; their callers read the file system.

use vstd::prelude::*;
use vstd::string::*;
use vstd::utf8::encode_utf8;
use super::error::{
    invalid_views, io_failure, is_io, ArtifactCacheError, InvalidOutput, InvalidOutputView,
};
use super::key::ARTIFACT_CACHE_FORMAT;
use super::layout::{
    format_output_index, output_file, output_location, outputs_directory, outputs_path,
    staged_output_path, MANIFEST_FILE, OUTPUTS_DIRECTORY,
};
use super::spec::{
    output_views, validation_token, ArtifactCacheSpec, ArtifactCacheSpecView,
    ArtifactOutputValidation, OutputView,
};
use super::validation::outputs_differ;
use crate::cache_fs::LAST_USED_FILE;
use crate::digest::{hex, lemma_digest_length, lemma_hex_injective, lemma_hex_text, InputDigest};
use crate::order::bytes_equal;
use crate::paths::{join, joined, same_path};
use crate::resolution::PathState;
use crate::settings::copy_bytes;
use crate::text::{
    all_digits, decimal, decimal_text, is_digit, lemma_decimal_digits, lemma_decimal_injective,
};
use crate::tree::byte_strings;

verus! {

/// Domain under which an output file is hashed.
pub const OUTPUT_DOMAIN: &'static str = "artifact-set-output-v1";

/// Size and digest of an output file.
#[derive(Clone, Copy, Debug)]
pub struct ArtifactInfo {
    /// Number of bytes.
    pub bytes: u64,
    /// Digest of the contents.
    pub digest: InputDigest,
}

/// What was found where an output file is expected.
#[derive(Debug)]
pub struct ArtifactObservation {
    /// What lies there, without following a final symbolic link.
    pub state: PathState,
    /// Length of the file, when a file lies there.
    pub length: u64,
    /// Size and digest of the file, or the rendered cause why they are unknown.
    pub contents: Option<Result<ArtifactInfo, String>>,
}

/// Whether a validation admits what was found.
pub open spec fn is_admitted(
    state: PathState,
    length: u64,
    validation: ArtifactOutputValidation,
) -> bool {
    state is File && (validation is RegularFile || length > 0)
}

/// Whether a validation admits what was found, so that the file has to be hashed.
pub fn admits(state: &PathState, length: u64, validation: ArtifactOutputValidation) -> (admitted: bool)
    ensures
        admitted == is_admitted(*state, length, validation),
{
    match state {
        PathState::File => match validation {
            ArtifactOutputValidation::RegularFile => true,
            ArtifactOutputValidation::NonEmptyFile => length > 0,
        },
        _ => false,
    }
}

/// Whether the file was hashed exactly when its validation admits it.
pub open spec fn is_complete(
    observed: ArtifactObservation,
    validation: ArtifactOutputValidation,
) -> bool {
    observed.contents is Some == is_admitted(observed.state, observed.length, validation)
}

/// Whether there is one complete observation for each output.
pub open spec fn covers_outputs(
    observed: Seq<ArtifactObservation>,
    outputs: Seq<OutputView>,
) -> bool {
    &&& observed.len() == outputs.len()
    &&& forall|i: int|
        0 <= i < outputs.len() ==> is_complete(#[trigger] observed[i], outputs[i].validation)
}

/// Size and digest of an output, nothing for a missing or invalid one, or why neither is known.
pub open spec fn artifact_verdict(observed: ArtifactObservation) -> Result<
    Option<ArtifactInfo>,
    Seq<char>,
> {
    match observed.state {
        PathState::Failed { message } => Err(message@),
        _ => match observed.contents {
            None => Ok(None),
            Some(Ok(info)) => Ok(Some(info)),
            Some(Err(message)) => Err(message@),
        },
    }
}

/// Size and digest of an output, nothing for a missing or invalid one, or why neither is known.
pub fn inspect_artifact(observed: &ArtifactObservation) -> (result: Result<
    Option<ArtifactInfo>,
    String,
>)
    ensures
        match (result, artifact_verdict(*observed)) {
            (Ok(info), Ok(expected)) => info == expected,
            (Err(message), Err(expected)) => message@ == expected,
            _ => false,
        },
{
    match &observed.state {
        PathState::Failed { message } => Err(message.clone()),
        _ => match &observed.contents {
            None => Ok(None),
            Some(Ok(info)) => Ok(Some(*info)),
            Some(Err(message)) => Err(message.clone()),
        },
    }
}

/// The names that are not among the expected ones, in the order in which they were listed.
pub open spec fn undeclared_names(names: Seq<Seq<u8>>, expected: Seq<Seq<u8>>) -> Seq<Seq<u8>> {
    names.filter(|name: Seq<u8>| !expected.contains(name))
}

/// Names that output files may have.
pub open spec fn expected_outputs(count: nat) -> Seq<Seq<u8>> {
    Seq::new(count, |i: int| encode_utf8(output_file(i as nat)))
}

fn expected_output_names(count: usize) -> (names: Vec<Vec<u8>>)
    ensures
        byte_strings(names@) == expected_outputs(count as nat),
{
    let ghost all = expected_outputs(count as nat);
    let mut names: Vec<Vec<u8>> = Vec::new();
    let mut at: usize = 0;
    while at < count
        invariant
            at <= count,
            all == expected_outputs(count as nat),
            byte_strings(names@) == all.take(at as int),
        decreases count - at,
    {
        let ghost before = byte_strings(names@);
        let name = format_output_index(at);
        names.push(copy_bytes(name.as_str().as_bytes()));
        proof {
            assert(byte_strings(names@) =~= before.push(all[at as int]));
            assert(all.take(at + 1) =~= all.take(at as int).push(all[at as int]));
        }
        at = at + 1;
    }
    assert(all.take(at as int) =~= all);
    names
}

fn is_among(name: &[u8], names: &Vec<Vec<u8>>) -> (found: bool)
    ensures
        found == byte_strings(names@).contains(name@),
{
    let ghost all = byte_strings(names@);
    let mut at: usize = 0;
    while at < names.len()
        invariant
            at <= names@.len(),
            all == byte_strings(names@),
            forall|i: int| 0 <= i < at ==> #[trigger] all[i] != name@,
        decreases names.len() - at,
    {
        assert(all[at as int] == names@[at as int]@);
        if bytes_equal(names[at].as_slice(), name) {
            return true;
        }
        at = at + 1;
    }
    false
}

/// The names that are not among the expected ones, in the order in which they were listed.
pub fn undeclared_children(names: &Vec<Vec<u8>>, expected: &Vec<Vec<u8>>) -> (undeclared: Vec<
    Vec<u8>,
>)
    ensures
        byte_strings(undeclared@) == undeclared_names(
            byte_strings(names@),
            byte_strings(expected@),
        ),
{
    let ghost all = byte_strings(names@);
    let ghost known = byte_strings(expected@);
    let ghost keep = |name: Seq<u8>| !known.contains(name);
    let mut undeclared: Vec<Vec<u8>> = Vec::new();
    let mut at: usize = 0;
    assert(byte_strings(undeclared@) =~= all.take(0).filter(keep)) by {
        reveal(Seq::filter);
    }
    while at < names.len()
        invariant
            at <= names@.len(),
            all == byte_strings(names@),
            known == byte_strings(expected@),
            keep == (|name: Seq<u8>| !known.contains(name)),
            byte_strings(undeclared@) == all.take(at as int).filter(keep),
        decreases names.len() - at,
    {
        proof {
            reveal(Seq::filter);
            assert(all.take(at + 1).drop_last() =~= all.take(at as int));
            assert(all.take(at + 1).last() == names@[at as int]@);
        }
        let ghost before = byte_strings(undeclared@);
        if !is_among(names[at].as_slice(), expected) {
            undeclared.push(copy_bytes(names[at].as_slice()));
            assert(byte_strings(undeclared@) =~= before.push(names@[at as int]@));
        }
        at = at + 1;
    }
    assert(all.take(at as int) =~= all);
    undeclared
}

/// What was found in a staging directory.
#[derive(Debug)]
pub struct StagingObservation {
    /// What lies where the output files are expected, without following a final symbolic link.
    pub outputs: PathState,
    /// What was found for each declared output.
    pub artifacts: Vec<ArtifactObservation>,
    /// Names in the directory of output files, or the rendered cause why they are unknown.
    pub output_children: Result<Vec<Vec<u8>>, String>,
    /// Names in the staging directory, or the rendered cause why they are unknown.
    pub root_children: Result<Vec<Vec<u8>>, String>,
}

/// Position of the first output from `from` on that could not be inspected.
pub open spec fn first_failure(observed: Seq<ArtifactObservation>, from: int) -> Option<int>
    decreases observed.len() - from,
{
    if from < 0 || from >= observed.len() {
        None
    } else if artifact_verdict(observed[from]) is Err {
        Some(from)
    } else {
        first_failure(observed, from + 1)
    }
}

/// Sizes and digests of the valid ones among the first `upto` outputs.
pub open spec fn valid_infos(observed: Seq<ArtifactObservation>, upto: int) -> Seq<ArtifactInfo>
    decreases upto,
{
    if upto <= 0 {
        seq![]
    } else {
        match artifact_verdict(observed[upto - 1]) {
            Ok(Some(info)) => valid_infos(observed, upto - 1).push(info),
            _ => valid_infos(observed, upto - 1),
        }
    }
}

/// The invalid ones among the first `upto` outputs.
pub open spec fn invalid_staged(
    outputs: Seq<OutputView>,
    observed: Seq<ArtifactObservation>,
    root: Seq<u8>,
    upto: int,
) -> Seq<InvalidOutputView>
    decreases upto,
{
    if upto <= 0 {
        seq![]
    } else {
        let before = invalid_staged(outputs, observed, root, upto - 1);
        match artifact_verdict(observed[upto - 1]) {
            Ok(None) => before.push(
                InvalidOutputView {
                    name: outputs[upto - 1].name,
                    path: output_location(root, (upto - 1) as nat),
                },
            ),
            _ => before,
        }
    }
}

/// Undeclared files, each under a placeholder.
pub open spec fn undeclared_outputs(directory: Seq<u8>, names: Seq<Seq<u8>>) -> Seq<
    InvalidOutputView,
> {
    names.map_values(
        |name: Seq<u8>|
            InvalidOutputView { name: "<undeclared>"@, path: joined(directory, name) },
    )
}

/// Everything in a staging directory that cannot be published.
pub open spec fn staging_complaints(
    outputs: Seq<OutputView>,
    observed: Seq<ArtifactObservation>,
    root: Seq<u8>,
    output_names: Seq<Seq<u8>>,
    root_names: Seq<Seq<u8>>,
) -> Seq<InvalidOutputView> {
    invalid_staged(outputs, observed, root, outputs.len() as int) + undeclared_outputs(
        outputs_path(root),
        undeclared_names(output_names, expected_outputs(outputs.len())),
    ) + undeclared_outputs(
        root,
        undeclared_names(root_names, seq![encode_utf8(OUTPUTS_DIRECTORY@)]),
    )
}

/// Whether an error lists exactly these outputs.
pub open spec fn lists_outputs(error: ArtifactCacheError, outputs: Seq<InvalidOutputView>) -> bool {
    error matches ArtifactCacheError::InvalidOutputs { outputs: found } && invalid_views(found@)
        == outputs
}

fn append_undeclared(invalid: &mut Vec<InvalidOutput>, directory: &[u8], names: &Vec<Vec<u8>>)
    ensures
        invalid_views(final(invalid)@) == invalid_views(old(invalid)@) + undeclared_outputs(
            directory@,
            byte_strings(names@),
        ),
{
    let ghost start = invalid_views(invalid@);
    let ghost all = undeclared_outputs(directory@, byte_strings(names@));
    let mut at: usize = 0;
    assert(start + all.take(0) =~= start);
    while at < names.len()
        invariant
            at <= names@.len(),
            all == undeclared_outputs(directory@, byte_strings(names@)),
            invalid_views(invalid@) == start + all.take(at as int),
        decreases names.len() - at,
    {
        let ghost before = invalid_views(invalid@);
        invalid.push(
            InvalidOutput {
                name: "<undeclared>".to_owned(),
                path: join(directory, names[at].as_slice()),
            },
        );
        proof {
            assert(invalid_views(invalid@) =~= before.push(all[at as int]));
            assert(all.take(at + 1) =~= all.take(at as int).push(all[at as int]));
            assert(invalid_views(invalid@) =~= start + all.take(at + 1));
        }
        at = at + 1;
    }
    assert(all.take(at as int) =~= all);
}

/// Check that a staging directory holds every declared output and nothing else.
pub fn inspect_complete_output_set(
    spec: &ArtifactCacheSpec,
    root: &[u8],
    observed: &StagingObservation,
) -> (result: Result<Vec<ArtifactInfo>, ArtifactCacheError>)
    requires
        observed.outputs is Directory ==> covers_outputs(observed.artifacts@, spec@.outputs),
    ensures
        match observed.outputs {
            PathState::Failed { message } => result matches Err(error) && is_io(
                error,
                "inspect artifact staging output directory"@,
                outputs_path(root@),
                message@,
            ),
            PathState::Directory => match first_failure(observed.artifacts@, 0) {
                Some(at) => result matches Err(error) && is_io(
                    error,
                    "inspect staged artifact output"@,
                    output_location(root@, at as nat),
                    artifact_verdict(observed.artifacts@[at])->Err_0,
                ),
                None => match (observed.output_children, observed.root_children) {
                    (Err(message), _) => result matches Err(error) && is_io(
                        error,
                        "read artifact output directory"@,
                        outputs_path(root@),
                        message@,
                    ),
                    (Ok(_), Err(message)) => result matches Err(error) && is_io(
                        error,
                        "read artifact staging directory"@,
                        root@,
                        message@,
                    ),
                    (Ok(output_names), Ok(root_names)) => {
                        let complaints = staging_complaints(
                            spec@.outputs,
                            observed.artifacts@,
                            root@,
                            byte_strings(output_names@),
                            byte_strings(root_names@),
                        );
                        match result {
                            Ok(info) => complaints.len() == 0 && info@ == valid_infos(
                                observed.artifacts@,
                                spec@.outputs.len() as int,
                            ),
                            Err(error) => complaints.len() > 0 && lists_outputs(error, complaints),
                        }
                    },
                },
            },
            _ => result matches Err(error) && lists_outputs(
                error,
                seq![InvalidOutputView { name: "<outputs>"@, path: outputs_path(root@) }],
            ),
        },
{
    let output_directory = outputs_directory(root);
    match &observed.outputs {
        PathState::Failed { message } => {
            return Err(
                io_failure(
                    "inspect artifact staging output directory",
                    output_directory,
                    message.clone(),
                ),
            );
        },
        PathState::Directory => {},
        _ => {
            let mut outputs: Vec<InvalidOutput> = Vec::new();
            outputs.push(InvalidOutput { name: "<outputs>".to_owned(), path: output_directory });
            assert(invalid_views(outputs@) =~= seq![
                InvalidOutputView { name: "<outputs>"@, path: outputs_path(root@) },
            ]);
            return Err(ArtifactCacheError::InvalidOutputs { outputs });
        },
    }
    let outputs = spec.outputs();
    let ghost views = spec@.outputs;
    let ghost found = observed.artifacts@;
    assert(output_views(outputs@).len() == outputs@.len());
    let mut info: Vec<ArtifactInfo> = Vec::new();
    let mut invalid: Vec<InvalidOutput> = Vec::new();
    let mut at: usize = 0;
    assert(info@ =~= valid_infos(found, 0));
    assert(invalid_views(invalid@) =~= invalid_staged(views, found, root@, 0));
    while at < outputs.len()
        invariant
            at <= outputs@.len(),
            views == output_views(outputs@),
            views == spec@.outputs,
            found == observed.artifacts@,
            observed.outputs is Directory,
            covers_outputs(found, views),
            views.len() == outputs@.len(),
            first_failure(found, 0) == first_failure(found, at as int),
            info@ == valid_infos(found, at as int),
            invalid_views(invalid@) == invalid_staged(views, found, root@, at as int),
        decreases outputs.len() - at,
    {
        let path = staged_output_path(root, at);
        let ghost before = invalid_views(invalid@);
        match inspect_artifact(&observed.artifacts[at]) {
            Ok(Some(artifact)) => {
                info.push(artifact);
            },
            Ok(None) => {
                assert(views[at as int] == outputs@[at as int]@);
                invalid.push(InvalidOutput { name: outputs[at].name.clone(), path });
                assert(invalid_views(invalid@) =~= before.push(
                    InvalidOutputView {
                        name: views[at as int].name,
                        path: output_location(root@, at as nat),
                    },
                ));
            },
            Err(source) => {
                return Err(io_failure("inspect staged artifact output", path, source));
            },
        }
        at = at + 1;
    }
    let output_names = match &observed.output_children {
        Err(message) => {
            return Err(
                io_failure("read artifact output directory", output_directory, message.clone()),
            );
        },
        Ok(names) => names,
    };
    let root_names = match &observed.root_children {
        Err(message) => {
            return Err(
                io_failure("read artifact staging directory", copy_bytes(root), message.clone()),
            );
        },
        Ok(names) => names,
    };
    let expected = expected_output_names(outputs.len());
    let undeclared = undeclared_children(output_names, &expected);
    append_undeclared(&mut invalid, output_directory.as_slice(), &undeclared);
    let mut expected_root: Vec<Vec<u8>> = Vec::new();
    expected_root.push(copy_bytes(OUTPUTS_DIRECTORY.as_bytes()));
    assert(byte_strings(expected_root@) =~= seq![encode_utf8(OUTPUTS_DIRECTORY@)]);
    let undeclared_root = undeclared_children(root_names, &expected_root);
    append_undeclared(&mut invalid, root, &undeclared_root);
    let ghost complaints = staging_complaints(
        views,
        found,
        root@,
        byte_strings(output_names@),
        byte_strings(root_names@),
    );
    assert(invalid_views(invalid@) =~= complaints);
    assert(invalid_views(invalid@).len() == invalid@.len());
    if invalid.len() == 0 {
        Ok(info)
    } else {
        Err(ArtifactCacheError::InvalidOutputs { outputs: invalid })
    }
}

/// What the outputs of an entry from `from` on amount to: `Some` for the first that is invalid
/// or could not be inspected.
pub open spec fn cached_obstacle(observed: Seq<ArtifactObservation>, from: int) -> Option<int>
    decreases observed.len() - from,
{
    if from < 0 || from >= observed.len() {
        None
    } else if artifact_verdict(observed[from]) matches Ok(Some(_)) {
        cached_obstacle(observed, from + 1)
    } else {
        Some(from)
    }
}

/// Whether a committed entry holds every declared output and no other file.
pub fn inspect_cached_output_set(
    spec: &ArtifactCacheSpec,
    root: &[u8],
    artifacts: &Vec<ArtifactObservation>,
    output_children: &Result<Vec<Vec<u8>>, String>,
) -> (result: Result<Option<Vec<ArtifactInfo>>, ArtifactCacheError>)
    requires
        covers_outputs(artifacts@, spec@.outputs),
    ensures
        match cached_obstacle(artifacts@, 0) {
            Some(at) => match artifact_verdict(artifacts@[at]) {
                Err(message) => result matches Err(error) && is_io(
                    error,
                    "inspect cached artifact output"@,
                    output_location(root@, at as nat),
                    message,
                ),
                Ok(_) => result matches Ok(None),
            },
            None => match *output_children {
                Err(message) => result matches Err(error) && is_io(
                    error,
                    "read artifact output directory"@,
                    outputs_path(root@),
                    message@,
                ),
                Ok(names) => {
                    let clean = undeclared_names(
                        byte_strings(names@),
                        expected_outputs(spec@.outputs.len()),
                    ).len() == 0;
                    match result {
                        Ok(Some(info)) => clean && info@ == valid_infos(
                            artifacts@,
                            spec@.outputs.len() as int,
                        ),
                        Ok(None) => !clean,
                        Err(_) => false,
                    }
                },
            },
        },
{
    let outputs = spec.outputs();
    assert(output_views(outputs@).len() == outputs@.len());
    let mut info: Vec<ArtifactInfo> = Vec::new();
    let mut at: usize = 0;
    assert(info@ =~= valid_infos(artifacts@, 0));
    while at < outputs.len()
        invariant
            at <= outputs@.len(),
            outputs@.len() == artifacts@.len(),
            cached_obstacle(artifacts@, 0) == cached_obstacle(artifacts@, at as int),
            info@ == valid_infos(artifacts@, at as int),
        decreases outputs.len() - at,
    {
        match inspect_artifact(&artifacts[at]) {
            Ok(Some(artifact)) => {
                info.push(artifact);
            },
            Ok(None) => {
                return Ok(None);
            },
            Err(source) => {
                return Err(
                    io_failure(
                        "inspect cached artifact output",
                        staged_output_path(root, at),
                        source,
                    ),
                );
            },
        }
        at = at + 1;
    }
    match output_children {
        Err(message) => Err(
            io_failure("read artifact output directory", outputs_directory(root), message.clone()),
        ),
        Ok(names) => {
            let expected = expected_output_names(outputs.len());
            let undeclared = undeclared_children(names, &expected);
            assert(byte_strings(undeclared@).len() == undeclared@.len());
            if undeclared.len() == 0 {
                Ok(Some(info))
            } else {
                Ok(None)
            }
        },
    }
}

/// One line of a manifest.
pub open spec fn manifest_line(output: OutputView, info: ArtifactInfo, index: nat) -> Seq<char> {
    "output:"@ + decimal(index) + ":"@ + output.name + ":"@ + validation_token(output.validation)
        + ":"@ + decimal(info.bytes as nat) + ":"@ + hex(info.digest@) + "\n"@
}

/// The lines of a manifest from `from` on.
pub open spec fn manifest_lines(
    outputs: Seq<OutputView>,
    info: Seq<ArtifactInfo>,
    from: int,
) -> Seq<char>
    decreases outputs.len() - from,
{
    if from < 0 || from >= outputs.len() || from >= info.len() {
        seq![]
    } else {
        manifest_line(outputs[from], info[from], from as nat) + manifest_lines(
            outputs,
            info,
            from + 1,
        )
    }
}

/// Text before the lines of a manifest.
pub open spec fn manifest_header(key: Seq<u8>) -> Seq<char> {
    ARTIFACT_CACHE_FORMAT@ + "\nkey:"@ + hex(key) + "\n"@
}

/// The manifest of a committed entry.
pub open spec fn manifest_text(
    key: Seq<u8>,
    outputs: Seq<OutputView>,
    info: Seq<ArtifactInfo>,
) -> Seq<char> {
    manifest_header(key) + manifest_lines(outputs, info, 0)
}

/// The manifest of a committed entry.
pub fn manifest_contents(
    key: InputDigest,
    spec: &ArtifactCacheSpec,
    output_info: &Vec<ArtifactInfo>,
) -> (manifest: String)
    ensures
        manifest@ == manifest_text(key@, spec@.outputs, output_info@),
{
    let mut manifest = ARTIFACT_CACHE_FORMAT.to_owned();
    manifest.append("\nkey:");
    manifest.append(key.to_hex().as_str());
    manifest.append("\n");
    let outputs = spec.outputs();
    let ghost views = spec@.outputs;
    let ghost whole = manifest_text(key@, views, output_info@);
    let mut at: usize = 0;
    assert(output_views(outputs@).len() == outputs@.len());
    while at < outputs.len() && at < output_info.len()
        invariant
            at <= outputs@.len(),
            at <= output_info@.len(),
            views == output_views(outputs@),
            views.len() == outputs@.len(),
            whole == manifest@ + manifest_lines(views, output_info@, at as int),
        decreases outputs.len() - at,
    {
        let ghost before = manifest@;
        let output = &outputs[at];
        let info = output_info[at];
        manifest.append("output:");
        manifest.append(decimal_text(at as u128).as_str());
        manifest.append(":");
        manifest.append(output.name.as_str());
        manifest.append(":");
        manifest.append(output.validation.cache_token());
        manifest.append(":");
        manifest.append(decimal_text(info.bytes as u128).as_str());
        manifest.append(":");
        manifest.append(info.digest.to_hex().as_str());
        manifest.append("\n");
        proof {
            assert(views[at as int] == outputs@[at as int]@);
            let line = manifest_line(views[at as int], info, at as nat);
            assert(manifest@ =~= before + line);
            assert(before + (line + manifest_lines(views, output_info@, at + 1)) =~= manifest@
                + manifest_lines(views, output_info@, at + 1));
        }
        at = at + 1;
    }
    assert(whole =~= manifest@);
    manifest
}

/// What was found where a committed entry is expected.
///
/// What lies behind a missing or unusable part is not looked at.
#[derive(Debug)]
pub struct EntryObservation {
    /// What lies at the entry, without following a final symbolic link.
    pub entry: PathState,
    /// Names in the entry, or the rendered cause why they are unknown.
    pub children: Result<Vec<Vec<u8>>, String>,
    /// What lies where the output files are expected.
    pub outputs: PathState,
    /// What lies where the use marker is expected.
    pub last_used: PathState,
    /// What lies where the manifest is expected.
    pub manifest: PathState,
    /// The manifest, or the rendered cause why it is unknown.
    pub manifest_contents: Result<Vec<u8>, String>,
    /// What was found for each declared output.
    pub artifacts: Vec<ArtifactObservation>,
    /// Names in the directory of output files, or the rendered cause why they are unknown.
    pub output_children: Result<Vec<Vec<u8>>, String>,
}

/// Names that an entry may hold.
pub open spec fn expected_entry_names() -> Seq<Seq<u8>> {
    seq![
        encode_utf8(OUTPUTS_DIRECTORY@),
        encode_utf8(MANIFEST_FILE@),
        encode_utf8(LAST_USED_FILE@),
    ]
}

/// What is known of an entry after one look: it is unusable, a look failed, or all is well.
pub enum Look {
    /// Nothing speaks against the entry so far.
    Well,
    /// The entry cannot be reused.
    Unusable,
    /// A look failed.
    Failed {
        /// What was attempted.
        operation: Seq<char>,
        /// Where it was attempted.
        path: Seq<u8>,
        /// Rendered cause.
        source: Seq<char>,
    },
}

/// The first look that says anything.
pub open spec fn first_look(first: Look, second: Look) -> Look {
    match first {
        Look::Well => second,
        _ => first,
    }
}

/// A look at a path that has to be of one kind.
pub open spec fn look_at(state: PathState, usable: bool, operation: Seq<char>, path: Seq<u8>) -> Look {
    match state {
        PathState::Failed { message } => Look::Failed { operation, path, source: message@ },
        _ => if usable {
            Look::Well
        } else {
            Look::Unusable
        },
    }
}

/// A look at the names in an entry.
pub open spec fn look_at_children(children: Result<Vec<Vec<u8>>, String>, entry: Seq<u8>) -> Look {
    match children {
        Err(message) => Look::Failed {
            operation: "read artifact cache entry"@,
            path: entry,
            source: message@,
        },
        Ok(names) => if undeclared_names(byte_strings(names@), expected_entry_names()).len() == 0 {
            Look::Well
        } else {
            Look::Unusable
        },
    }
}

/// What is known of an entry before its outputs are looked at.
pub open spec fn entry_look(entry: Seq<u8>, observed: EntryObservation) -> Look {
    first_look(
        look_at(
            observed.entry,
            observed.entry is Directory,
            "inspect artifact cache entry"@,
            entry,
        ),
        first_look(
            look_at_children(observed.children, entry),
            first_look(
                look_at(
                    observed.outputs,
                    observed.outputs is Directory,
                    "inspect artifact cache output directory"@,
                    outputs_path(entry),
                ),
                first_look(
                    look_at(
                        observed.last_used,
                        observed.last_used is File || observed.last_used is Missing,
                        "inspect artifact cache use marker"@,
                        joined(entry, encode_utf8(LAST_USED_FILE@)),
                    ),
                    first_look(
                        look_at(
                            observed.manifest,
                            observed.manifest is File,
                            "inspect artifact cache manifest"@,
                            joined(entry, encode_utf8(MANIFEST_FILE@)),
                        ),
                        match observed.manifest_contents {
                            Err(message) => Look::Failed {
                                operation: "read artifact cache manifest"@,
                                path: joined(entry, encode_utf8(MANIFEST_FILE@)),
                                source: message@,
                            },
                            Ok(_) => Look::Well,
                        },
                    ),
                ),
            ),
        ),
    )
}

/// Whether every output of an entry is there and valid, and nothing else is.
pub open spec fn outputs_are_complete(
    spec: ArtifactCacheSpecView,
    observed: EntryObservation,
) -> bool {
    &&& cached_obstacle(observed.artifacts@, 0) is None
    &&& observed.output_children matches Ok(names) && undeclared_names(
        byte_strings(names@),
        expected_outputs(spec.outputs.len()),
    ).len() == 0
}

/// Whether an entry can be reused: nothing speaks against it, its outputs are complete, and its
/// manifest is the one of exactly these outputs under exactly this key.
pub open spec fn is_reusable(
    spec: ArtifactCacheSpecView,
    key: Seq<u8>,
    entry: Seq<u8>,
    observed: EntryObservation,
) -> bool {
    &&& entry_look(entry, observed) is Well
    &&& outputs_are_complete(spec, observed)
    &&& observed.manifest_contents matches Ok(found) && found@ == encode_utf8(
        manifest_text(
            key,
            spec.outputs,
            valid_infos(observed.artifacts@, spec.outputs.len() as int),
        ),
    )
}

fn looked(state: &PathState, usable: bool, operation: &str, path: Vec<u8>) -> (result: Result<
    bool,
    ArtifactCacheError,
>)
    ensures
        match look_at(*state, usable, operation@, path@) {
            Look::Well => result == Ok::<bool, ArtifactCacheError>(true),
            Look::Unusable => result == Ok::<bool, ArtifactCacheError>(false),
            Look::Failed { operation, path, source } => result matches Err(error) && is_io(
                error,
                operation,
                path,
                source,
            ),
        },
{
    match state {
        PathState::Failed { message } => Err(io_failure(operation, path, message.clone())),
        _ => Ok(usable),
    }
}

fn is_directory(state: &PathState) -> (yes: bool)
    ensures
        yes == (*state is Directory),
{
    match state {
        PathState::Directory => true,
        _ => false,
    }
}

fn is_file(state: &PathState) -> (yes: bool)
    ensures
        yes == (*state is File),
{
    match state {
        PathState::File => true,
        _ => false,
    }
}

fn is_file_or_missing(state: &PathState) -> (yes: bool)
    ensures
        yes == (*state is File || *state is Missing),
{
    match state {
        PathState::File | PathState::Missing => true,
        _ => false,
    }
}

fn expected_children() -> (names: Vec<Vec<u8>>)
    ensures
        byte_strings(names@) == expected_entry_names(),
{
    let mut names: Vec<Vec<u8>> = Vec::new();
    names.push(copy_bytes(OUTPUTS_DIRECTORY.as_bytes()));
    names.push(copy_bytes(MANIFEST_FILE.as_bytes()));
    names.push(copy_bytes(LAST_USED_FILE.as_bytes()));
    assert(byte_strings(names@) =~= expected_entry_names());
    names
}

fn look_into_entry(entry: &[u8], observed: &EntryObservation) -> (result: Result<
    bool,
    ArtifactCacheError,
>)
    ensures
        match entry_look(entry@, *observed) {
            Look::Well => result == Ok::<bool, ArtifactCacheError>(true)
                && observed.manifest_contents is Ok,
            Look::Unusable => result == Ok::<bool, ArtifactCacheError>(false),
            Look::Failed { operation, path, source } => result matches Err(error) && is_io(
                error,
                operation,
                path,
                source,
            ),
        },
{
    if !looked(
        &observed.entry,
        is_directory(&observed.entry),
        "inspect artifact cache entry",
        copy_bytes(entry),
    )? {
        return Ok(false);
    }
    match &observed.children {
        Err(message) => {
            return Err(
                io_failure("read artifact cache entry", copy_bytes(entry), message.clone()),
            );
        },
        Ok(names) => {
            let expected = expected_children();
            let undeclared = undeclared_children(names, &expected);
            assert(byte_strings(undeclared@).len() == undeclared@.len());
            if undeclared.len() > 0 {
                return Ok(false);
            }
        },
    }
    if !looked(
        &observed.outputs,
        is_directory(&observed.outputs),
        "inspect artifact cache output directory",
        outputs_directory(entry),
    )? {
        return Ok(false);
    }
    if !looked(
        &observed.last_used,
        is_file_or_missing(&observed.last_used),
        "inspect artifact cache use marker",
        join(entry, LAST_USED_FILE.as_bytes()),
    )? {
        return Ok(false);
    }
    let manifest_path = join(entry, MANIFEST_FILE.as_bytes());
    if !looked(
        &observed.manifest,
        is_file(&observed.manifest),
        "inspect artifact cache manifest",
        copy_bytes(manifest_path.as_slice()),
    )? {
        return Ok(false);
    }
    match &observed.manifest_contents {
        Err(message) => Err(
            io_failure("read artifact cache manifest", manifest_path, message.clone()),
        ),
        Ok(_) => Ok(true),
    }
}

/// Whether a committed entry can be reused.
pub fn cache_entry_is_valid(
    spec: &ArtifactCacheSpec,
    key: InputDigest,
    entry: &[u8],
    observed: &EntryObservation,
) -> (result: Result<bool, ArtifactCacheError>)
    requires
        entry_look(entry@, *observed) is Well ==> covers_outputs(
            observed.artifacts@,
            spec@.outputs,
        ),
    ensures
        match entry_look(entry@, *observed) {
            Look::Unusable => result == Ok::<bool, ArtifactCacheError>(false),
            Look::Failed { operation, path, source } => result matches Err(error) && is_io(
                error,
                operation,
                path,
                source,
            ),
            Look::Well => match cached_obstacle(observed.artifacts@, 0) {
                Some(at) => match artifact_verdict(observed.artifacts@[at]) {
                    Err(message) => result matches Err(error) && is_io(
                        error,
                        "inspect cached artifact output"@,
                        output_location(entry@, at as nat),
                        message,
                    ),
                    Ok(_) => result == Ok::<bool, ArtifactCacheError>(false),
                },
                None => match observed.output_children {
                    Err(message) => result matches Err(error) && is_io(
                        error,
                        "read artifact output directory"@,
                        outputs_path(entry@),
                        message@,
                    ),
                    Ok(_) => result == Ok::<bool, ArtifactCacheError>(
                        is_reusable(spec@, key@, entry@, *observed),
                    ),
                },
            },
        },
{
    if !look_into_entry(entry, observed)? {
        return Ok(false);
    }
    let found = match &observed.manifest_contents {
        Ok(found) => found,
        Err(_) => {
            return Ok(false);
        },
    };
    match inspect_cached_output_set(spec, entry, &observed.artifacts, &observed.output_children)? {
        None => Ok(false),
        Some(output_info) => {
            let manifest = manifest_contents(key, spec, &output_info);
            Ok(bytes_equal(found.as_slice(), manifest.as_str().as_bytes()))
        },
    }
}

proof fn lemma_digits_then_colon(a: Seq<char>, b: Seq<char>, x: Seq<char>, y: Seq<char>)
    requires
        all_digits(a),
        all_digits(b),
        a + seq![':'] + x == b + seq![':'] + y,
    ensures
        a == b,
        x == y,
{
    let (left, right) = (a + seq![':'] + x, b + seq![':'] + y);
    if a.len() < b.len() {
        assert(left[a.len() as int] == ':');
        assert(right[a.len() as int] == b[a.len() as int]);
        assert(is_digit(b[a.len() as int]));
    } else if b.len() < a.len() {
        assert(right[b.len() as int] == ':');
        assert(left[b.len() as int] == a[b.len() as int]);
        assert(is_digit(a[b.len() as int]));
    }
    assert(a =~= left.take(a.len() as int));
    assert(b =~= right.take(a.len() as int));
    assert(x =~= left.skip(a.len() as int + 1));
    assert(y =~= right.skip(a.len() as int + 1));
}

spec fn line_head(output: OutputView, index: nat) -> Seq<char> {
    "output:"@ + decimal(index) + ":"@ + output.name + ":"@ + validation_token(output.validation)
        + ":"@
}

spec fn line_tail(info: ArtifactInfo, rest: Seq<char>) -> Seq<char> {
    decimal(info.bytes as nat) + seq![':'] + (hex(info.digest@) + "\n"@ + rest)
}

proof fn lemma_line_parts(output: OutputView, info: ArtifactInfo, index: nat, rest: Seq<char>)
    ensures
        manifest_line(output, info, index) + rest == line_head(output, index) + line_tail(
            info,
            rest,
        ),
{
    reveal_strlit(":");
    assert(":"@ =~= seq![':']);
    assert(manifest_line(output, info, index) + rest =~= line_head(output, index) + line_tail(
        info,
        rest,
    ));
}

proof fn lemma_line_tail_injective(
    left: ArtifactInfo,
    right: ArtifactInfo,
    x: Seq<char>,
    y: Seq<char>,
)
    requires
        line_tail(left, x) == line_tail(right, y),
    ensures
        left.bytes == right.bytes,
        left.digest@ == right.digest@,
        x == y,
{
    reveal_strlit("\n");
    let (a, b) = (hex(left.digest@) + "\n"@ + x, hex(right.digest@) + "\n"@ + y);
    lemma_decimal_digits(left.bytes as nat);
    lemma_decimal_digits(right.bytes as nat);
    lemma_digits_then_colon(decimal(left.bytes as nat), decimal(right.bytes as nat), a, b);
    lemma_decimal_injective(left.bytes as nat, right.bytes as nat);
    lemma_digest_length(left.digest);
    lemma_digest_length(right.digest);
    lemma_hex_text(left.digest@);
    lemma_hex_text(right.digest@);
    assert(hex(left.digest@) =~= a.take(64));
    assert(hex(right.digest@) =~= b.take(64));
    lemma_hex_injective(left.digest@, right.digest@);
    assert(x =~= a.skip(65));
    assert(y =~= b.skip(65));
}

proof fn lemma_manifest_lines_injective(
    outputs: Seq<OutputView>,
    left: Seq<ArtifactInfo>,
    right: Seq<ArtifactInfo>,
    from: int,
)
    requires
        left.len() == outputs.len(),
        right.len() == outputs.len(),
        0 <= from <= outputs.len(),
        manifest_lines(outputs, left, from) == manifest_lines(outputs, right, from),
    ensures
        forall|i: int|
            from <= i < outputs.len() ==> (#[trigger] left[i]).bytes == right[i].bytes
                && left[i].digest@ == right[i].digest@,
    decreases outputs.len() - from,
{
    if from < outputs.len() {
        let (x, y) = (
            manifest_lines(outputs, left, from + 1),
            manifest_lines(outputs, right, from + 1),
        );
        let head = line_head(outputs[from], from as nat);
        let (a, b) = (line_tail(left[from], x), line_tail(right[from], y));
        lemma_line_parts(outputs[from], left[from], from as nat, x);
        lemma_line_parts(outputs[from], right[from], from as nat, y);
        assert(a =~= (head + a).skip(head.len() as int));
        assert(b =~= (head + b).skip(head.len() as int));
        lemma_line_tail_injective(left[from], right[from], x, y);
        lemma_manifest_lines_injective(outputs, left, right, from + 1);
    }
}

/// A manifest determines its key and the size and digest of every output: no other contents of
/// the output files have the same manifest.
pub proof fn lemma_manifest_identifies_artifacts(
    left_key: InputDigest,
    right_key: InputDigest,
    outputs: Seq<OutputView>,
    left: Seq<ArtifactInfo>,
    right: Seq<ArtifactInfo>,
)
    requires
        left.len() == outputs.len(),
        right.len() == outputs.len(),
        manifest_text(left_key@, outputs, left) == manifest_text(right_key@, outputs, right),
    ensures
        left_key@ == right_key@,
        forall|i: int|
            0 <= i < outputs.len() ==> (#[trigger] left[i]).bytes == right[i].bytes
                && left[i].digest@ == right[i].digest@,
{
    let (a, b) = (
        manifest_text(left_key@, outputs, left),
        manifest_text(right_key@, outputs, right),
    );
    let head = ARTIFACT_CACHE_FORMAT@ + "\nkey:"@;
    let (x, y) = (manifest_lines(outputs, left, 0), manifest_lines(outputs, right, 0));
    let (ha, hb) = (hex(left_key@), hex(right_key@));
    lemma_digest_length(left_key);
    lemma_digest_length(right_key);
    lemma_hex_text(left_key@);
    lemma_hex_text(right_key@);
    assert(ha =~= a.subrange(head.len() as int, head.len() as int + 64));
    assert(hb =~= b.subrange(head.len() as int, head.len() as int + 64));
    lemma_hex_injective(left_key@, right_key@);
    assert(x =~= a.skip(manifest_header(left_key@).len() as int));
    assert(y =~= b.skip(manifest_header(left_key@).len() as int));
    lemma_manifest_lines_injective(outputs, left, right, 0);
}

/// What was published can be reused: an entry that holds the outputs that its manifest was
/// written for, and nothing else, is accepted.
pub proof fn lemma_published_entry_is_reusable(
    spec: ArtifactCacheSpecView,
    key: Seq<u8>,
    entry: Seq<u8>,
    published: Seq<ArtifactInfo>,
    observed: EntryObservation,
)
    requires
        entry_look(entry, observed) is Well,
        outputs_are_complete(spec, observed),
        valid_infos(observed.artifacts@, spec.outputs.len() as int) == published,
        observed.manifest_contents matches Ok(found) && found@ == encode_utf8(
            manifest_text(key, spec.outputs, published),
        ),
    ensures
        is_reusable(spec, key, entry, observed),
{
}

/// One file to copy.
#[derive(Clone, Debug)]
pub struct CopyStep {
    /// Where the file lies.
    pub from: Vec<u8>,
    /// Where its copy goes.
    pub to: Vec<u8>,
}

/// Whether copies bring every cached output of an entry to its destination, in order.
pub open spec fn brings_outputs(
    steps: Seq<CopyStep>,
    outputs: Seq<OutputView>,
    entry: Seq<u8>,
) -> bool {
    &&& steps.len() == outputs.len()
    &&& forall|i: int|
        0 <= i < outputs.len() ==> (#[trigger] steps[i]).from@ == output_location(entry, i as nat)
            && steps[i].to@ == outputs[i].destination
}

/// The copies that materialize an entry.
pub fn materialization(spec: &ArtifactCacheSpec, entry: &[u8]) -> (steps: Vec<CopyStep>)
    ensures
        brings_outputs(steps@, spec@.outputs, entry@),
{
    let outputs = spec.outputs();
    let mut steps: Vec<CopyStep> = Vec::new();
    let mut at: usize = 0;
    assert(output_views(outputs@).len() == outputs@.len());
    while at < outputs.len()
        invariant
            at <= outputs@.len(),
            output_views(outputs@) == spec@.outputs,
            steps@.len() == at,
            forall|i: int|
                0 <= i < at ==> (#[trigger] steps@[i]).from@ == output_location(entry@, i as nat)
                    && steps@[i].to@ == spec@.outputs[i].destination,
        decreases outputs.len() - at,
    {
        assert(spec@.outputs[at as int] == outputs@[at as int]@);
        steps.push(
            CopyStep {
                from: staged_output_path(entry, at),
                to: copy_bytes(outputs[at].destination.as_slice()),
            },
        );
        at = at + 1;
    }
    steps
}

/// The contents of files after copies were made in order.
pub open spec fn after_copies(
    files: Map<Seq<u8>, Seq<u8>>,
    steps: Seq<CopyStep>,
) -> Map<Seq<u8>, Seq<u8>>
    decreases steps.len(),
{
    if steps.len() == 0 {
        files
    } else {
        let before = after_copies(files, steps.drop_last());
        before.insert(steps.last().to@, before[steps.last().from@])
    }
}

proof fn lemma_copies_keep_sources(files: Map<Seq<u8>, Seq<u8>>, steps: Seq<CopyStep>, path: Seq<u8>)
    requires
        forall|i: int| 0 <= i < steps.len() ==> (#[trigger] steps[i]).to@ != path,
    ensures
        after_copies(files, steps)[path] == files[path],
    decreases steps.len(),
{
    if steps.len() > 0 {
        let shorter = steps.drop_last();
        assert(steps[steps.len() - 1].to@ != path);
        assert forall|i: int| 0 <= i < shorter.len() implies (#[trigger] shorter[i]).to@ != path by {
            assert(steps[i].to@ != path);
        }
        lemma_copies_keep_sources(files, shorter, path);
    }
}

proof fn lemma_copies_arrive(files: Map<Seq<u8>, Seq<u8>>, steps: Seq<CopyStep>, at: int)
    requires
        0 <= at < steps.len(),
        forall|i: int, j: int|
            #![trigger steps[i], steps[j]]
            0 <= i < steps.len() && 0 <= j < steps.len() ==> steps[i].to@ != steps[j].from@,
        forall|i: int, j: int|
            #![trigger steps[i], steps[j]]
            0 <= i < j < steps.len() ==> steps[i].to@ != steps[j].to@,
    ensures
        after_copies(files, steps)[steps[at].to@] == files[steps[at].from@],
    decreases steps.len(),
{
    let shorter = steps.drop_last();
    let end = steps.len() - 1;
    assert forall|i: int, j: int|
        #![trigger shorter[i], shorter[j]]
        0 <= i < shorter.len() && 0 <= j < shorter.len() implies shorter[i].to@
        != shorter[j].from@ by {
        assert(steps[i].to@ != steps[j].from@);
    }
    assert forall|i: int, j: int|
        #![trigger shorter[i], shorter[j]]
        0 <= i < j < shorter.len() implies shorter[i].to@ != shorter[j].to@ by {
        assert(steps[i].to@ != steps[j].to@);
    }
    if at < end {
        lemma_copies_arrive(files, shorter, at);
        assert(steps[at].to@ != steps[end].to@);
        assert(shorter[at] == steps[at]);
    } else {
        assert forall|i: int| 0 <= i < shorter.len() implies (#[trigger] shorter[i]).to@
            != steps[end].from@ by {
            assert(steps[i].to@ != steps[end].from@);
        }
        lemma_copies_keep_sources(files, shorter, steps[end].from@);
    }
}

/// Once an entry was materialized, every destination holds the bytes of its cached output,
/// whatever it held before.
pub proof fn lemma_destinations_hold_cached_bytes(
    files: Map<Seq<u8>, Seq<u8>>,
    spec: ArtifactCacheSpecView,
    entry: Seq<u8>,
    steps: Seq<CopyStep>,
)
    requires
        brings_outputs(steps, spec.outputs, entry),
        outputs_differ(spec.outputs),
        forall|i: int, j: int|
            0 <= i < spec.outputs.len() && 0 <= j < spec.outputs.len() ==> (
            #[trigger] spec.outputs[i]).destination != #[trigger] output_location(entry, j as nat),
    ensures
        forall|i: int|
            0 <= i < spec.outputs.len() ==> after_copies(files, steps)[(
            #[trigger] spec.outputs[i]).destination] == files[output_location(entry, i as nat)],
{
    let outputs = spec.outputs;
    assert forall|i: int| 0 <= i < outputs.len() implies after_copies(files, steps)[(
    #[trigger] outputs[i]).destination] == files[output_location(entry, i as nat)] by {
        assert(steps[i].from@ == output_location(entry, i as nat));
        assert forall|a: int, b: int|
            #![trigger steps[a], steps[b]]
            0 <= a < steps.len() && 0 <= b < steps.len() implies steps[a].to@ != steps[b].from@ by {
            assert(outputs[a].destination != output_location(entry, b as nat));
        }
        assert forall|a: int, b: int|
            #![trigger steps[a], steps[b]]
            0 <= a < b < steps.len() implies steps[a].to@ != steps[b].to@ by {
            assert(!same_path(outputs[a].destination, outputs[b].destination));
        }
        lemma_copies_arrive(files, steps, i);
    }
}

/// What was tampered with is not reused: an entry whose outputs differ in size or digest from
/// those that its manifest was written for is rejected.
pub proof fn lemma_tampered_entry_is_rejected(
    spec: ArtifactCacheSpecView,
    key: InputDigest,
    entry: Seq<u8>,
    published: Seq<ArtifactInfo>,
    observed: EntryObservation,
    at: int,
)
    requires
        0 <= at < spec.outputs.len(),
        published.len() == spec.outputs.len(),
        valid_infos(observed.artifacts@, spec.outputs.len() as int).len() == spec.outputs.len(),
        ({
            let found = valid_infos(observed.artifacts@, spec.outputs.len() as int)[at];
            found.bytes != published[at].bytes || found.digest@ != published[at].digest@
        }),
        observed.manifest_contents matches Ok(found) && found@ == encode_utf8(
            manifest_text(key@, spec.outputs, published),
        ),
    ensures
        !is_reusable(spec, key@, entry, observed),
{
    broadcast use vstd::utf8::encode_utf8_decode_utf8;

    let found = valid_infos(observed.artifacts@, spec.outputs.len() as int);
    let (a, b) = (
        manifest_text(key@, spec.outputs, published),
        manifest_text(key@, spec.outputs, found),
    );
    if encode_utf8(a) == encode_utf8(b) {
        assert(vstd::utf8::decode_utf8(encode_utf8(a)) == a);
        assert(vstd::utf8::decode_utf8(encode_utf8(b)) == b);
        lemma_manifest_identifies_artifacts(key, key, spec.outputs, published, found);
    }
}

} // verus!

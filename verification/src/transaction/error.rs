//! Structured failures of transactional artifact caching.

use vstd::prelude::*;
use vstd::string::*;
use crate::digest::{hex, InputDigest};
use crate::text::{lossy, lossy_text};
use crate::wasm_cache::error::WasmBuildError;

verus! {

/// Structured failure from transactional artifact caching.
#[derive(Debug)]
pub enum ArtifactCacheError {
    /// The caller supplied an incomplete, ambiguous, or unsafe specification.
    InvalidSpec {
        /// What is wrong with the specification.
        message: String,
    },
    /// A filesystem operation failed.
    Io {
        /// What was attempted.
        operation: String,
        /// Where it was attempted.
        path: Vec<u8>,
        /// Rendered cause.
        source: String,
    },
    /// Inputs repeatedly changed while preparing a stable cache acquisition.
    InputsChangedDuringPreparation {
        /// Digest before the last observed change.
        before: InputDigest,
        /// Digest after the last observed change.
        after: InputDigest,
    },
    /// Inputs changed while the caller owned a build transaction.
    InputsChangedDuringBuild {
        /// Digest before the build.
        before: InputDigest,
        /// Digest after the build.
        after: InputDigest,
    },
    /// A resolved Cargo source and configuration set changed after it was captured.
    CargoBuildInputsChanged {
        /// Caller-selected logical input-set label.
        label: String,
        /// Exact Cargo fingerprint or source digest captured by the resolver.
        before: InputDigest,
        /// Exact fingerprint or source digest observed during revalidation.
        after: InputDigest,
    },
    /// Rehashing a resolved Cargo input set failed.
    CargoBuildInputRevalidation {
        /// Caller-selected logical input-set label.
        label: String,
        /// Underlying exact Cargo input error.
        source: WasmBuildError,
    },
    /// One or more declared staged outputs were missing or failed validation.
    InvalidOutputs {
        /// Logical names and staged paths.
        outputs: Vec<InvalidOutput>,
    },
    /// A logical output name was not declared by the transaction specification.
    UnknownOutput {
        /// The name.
        name: String,
    },
    /// Transaction failure cleanup also failed.
    FailedTransactionCleanup {
        /// Failure of the transaction itself.
        transaction_error: Box<ArtifactCacheError>,
        /// Staging directory that could not be removed.
        path: Vec<u8>,
        /// Rendered cause.
        source: String,
    },
}

/// A staged output that cannot be published.
#[derive(Debug)]
pub struct InvalidOutput {
    /// Logical name, or a placeholder for what was not declared.
    pub name: String,
    /// Staged path.
    pub path: Vec<u8>,
}

/// What an output that cannot be published says.
pub struct InvalidOutputView {
    /// Logical name, or a placeholder for what was not declared.
    pub name: Seq<char>,
    /// Staged path.
    pub path: Seq<u8>,
}

impl View for InvalidOutput {
    type V = InvalidOutputView;

    open spec fn view(&self) -> InvalidOutputView {
        InvalidOutputView { name: self.name@, path: self.path@ }
    }
}

/// Views of a list of outputs that cannot be published.
pub open spec fn invalid_views(outputs: Seq<InvalidOutput>) -> Seq<InvalidOutputView> {
    outputs.map_values(|output: InvalidOutput| output@)
}

/// Names and paths separated by commas.
pub open spec fn invalid_outputs_text(outputs: Seq<InvalidOutputView>) -> Seq<char>
    decreases outputs.len(),
{
    if outputs.len() == 0 {
        seq![]
    } else {
        let last = outputs.last().name + " ("@ + lossy_text(outputs.last().path) + ")"@;
        if outputs.len() == 1 {
            last
        } else {
            invalid_outputs_text(outputs.drop_last()) + ", "@ + last
        }
    }
}

fn render_invalid_outputs(outputs: &Vec<InvalidOutput>) -> (text: String)
    ensures
        text@ == invalid_outputs_text(invalid_views(outputs@)),
{
    let ghost all = invalid_views(outputs@);
    let mut text = String::new();
    let mut at: usize = 0;
    assert(text@ =~= invalid_outputs_text(all.take(0)));
    while at < outputs.len()
        invariant
            at <= outputs@.len(),
            all == invalid_views(outputs@),
            text@ == invalid_outputs_text(all.take(at as int)),
        decreases outputs.len() - at,
    {
        let ghost before = text@;
        proof {
            assert(all.take(at + 1).drop_last() =~= all.take(at as int));
            assert(all.take(at + 1).last() == outputs@[at as int]@);
        }
        if at > 0 {
            text.append(", ");
        }
        text.append(outputs[at].name.as_str());
        text.append(" (");
        text.append(lossy(outputs[at].path.as_slice()).as_str());
        text.append(")");
        proof {
            let last = outputs@[at as int]@.name + " ("@ + lossy_text(outputs@[at as int]@.path)
                + ")"@;
            if at == 0 {
                assert(text@ =~= last);
            } else {
                assert(text@ =~= before + ", "@ + last);
            }
        }
        at = at + 1;
    }
    assert(all.take(at as int) =~= all);
    text
}

/// The message of a failure.
pub open spec fn cache_error_text(error: ArtifactCacheError) -> Seq<char>
    decreases error,
{
    match error {
        ArtifactCacheError::InvalidSpec { message } => "invalid artifact cache spec: "@ + message@,
        ArtifactCacheError::Io { operation, path, source } => "failed to "@ + operation@ + " at "@
            + lossy_text(path@) + ": "@ + source@,
        ArtifactCacheError::InputsChangedDuringPreparation { before, after } =>
            "artifact inputs repeatedly changed during cache preparation: "@ + hex(before@)
            + " -> "@ + hex(after@),
        ArtifactCacheError::InputsChangedDuringBuild { before, after } =>
            "artifact inputs changed while the caller was building: "@ + hex(before@) + " -> "@
            + hex(after@),
        ArtifactCacheError::CargoBuildInputsChanged { label, before, after } =>
            "resolved Cargo build inputs `"@ + label@ + "` changed: "@ + hex(before@) + " -> "@
            + hex(after@),
        ArtifactCacheError::CargoBuildInputRevalidation { label, source } =>
            "failed to revalidate resolved Cargo build inputs `"@ + label@ + "`: "@
            + crate::wasm_cache::error::error_text(source),
        ArtifactCacheError::InvalidOutputs { outputs } =>
            "artifact transaction has missing or invalid outputs: "@ + invalid_outputs_text(
            invalid_views(outputs@),
        ),
        ArtifactCacheError::UnknownOutput { name } => "artifact transaction has no output named `"@
            + name@ + "`"@,
        ArtifactCacheError::FailedTransactionCleanup { transaction_error, path, source } =>
            "artifact transaction failed ("@ + cache_error_text(*transaction_error)
            + ") and staging cleanup at "@ + lossy_text(path@) + " also failed: "@ + source@,
    }
}

impl ArtifactCacheError {
    /// The message of the failure.
    pub fn render(&self) -> (text: String)
        ensures
            text@ == cache_error_text(*self),
        decreases *self,
    {
        match self {
            ArtifactCacheError::InvalidSpec { message } => {
                let mut text = "invalid artifact cache spec: ".to_owned();
                text.append(message.as_str());
                text
            },
            ArtifactCacheError::Io { operation, path, source } => {
                let mut text = "failed to ".to_owned();
                text.append(operation.as_str());
                text.append(" at ");
                text.append(lossy(path.as_slice()).as_str());
                text.append(": ");
                text.append(source.as_str());
                text
            },
            ArtifactCacheError::InputsChangedDuringPreparation { before, after } => {
                let mut text =
                    "artifact inputs repeatedly changed during cache preparation: ".to_owned();
                text.append(before.to_hex().as_str());
                text.append(" -> ");
                text.append(after.to_hex().as_str());
                text
            },
            ArtifactCacheError::InputsChangedDuringBuild { before, after } => {
                let mut text = "artifact inputs changed while the caller was building: ".to_owned();
                text.append(before.to_hex().as_str());
                text.append(" -> ");
                text.append(after.to_hex().as_str());
                text
            },
            ArtifactCacheError::CargoBuildInputsChanged { label, before, after } => {
                let mut text = "resolved Cargo build inputs `".to_owned();
                text.append(label.as_str());
                text.append("` changed: ");
                text.append(before.to_hex().as_str());
                text.append(" -> ");
                text.append(after.to_hex().as_str());
                text
            },
            ArtifactCacheError::CargoBuildInputRevalidation { label, source } => {
                let mut text = "failed to revalidate resolved Cargo build inputs `".to_owned();
                text.append(label.as_str());
                text.append("`: ");
                text.append(source.render().as_str());
                text
            },
            ArtifactCacheError::InvalidOutputs { outputs } => {
                let mut text = "artifact transaction has missing or invalid outputs: ".to_owned();
                text.append(render_invalid_outputs(outputs).as_str());
                text
            },
            ArtifactCacheError::UnknownOutput { name } => {
                let mut text = "artifact transaction has no output named `".to_owned();
                text.append(name.as_str());
                text.append("`");
                text
            },
            ArtifactCacheError::FailedTransactionCleanup { transaction_error, path, source } => {
                let mut text = "artifact transaction failed (".to_owned();
                text.append(transaction_error.render().as_str());
                text.append(") and staging cleanup at ");
                text.append(lossy(path.as_slice()).as_str());
                text.append(" also failed: ");
                text.append(source.as_str());
                text
            },
        }
    }
}

/// Whether a failure reports a rejected specification with this message.
pub open spec fn is_invalid_spec(error: ArtifactCacheError, message: Seq<char>) -> bool {
    error matches ArtifactCacheError::InvalidSpec { message: found } && found@ == message
}

/// Whether a failure reports a failed filesystem operation.
pub open spec fn is_io(
    error: ArtifactCacheError,
    operation: Seq<char>,
    path: Seq<u8>,
    source: Seq<char>,
) -> bool {
    error matches ArtifactCacheError::Io { operation: tried, path: place, source: cause } && tried@
        == operation && place@ == path && cause@ == source
}

/// The error for a specification that cannot be acquired.
pub fn invalid_spec(message: String) -> (error: ArtifactCacheError)
    ensures
        is_invalid_spec(error, message@),
{
    ArtifactCacheError::InvalidSpec { message }
}

/// The error for a failed filesystem operation.
pub fn io_failure(operation: &str, path: Vec<u8>, source: String) -> (error: ArtifactCacheError)
    ensures
        is_io(error, operation@, path@, source@),
{
    ArtifactCacheError::Io { operation: operation.to_owned(), path, source }
}

} // verus!

//! Structured failures of cacheable Wasm builds.

use vstd::prelude::*;
use vstd::string::*;
use crate::digest::{hex, InputDigest};
use crate::text::lossy;
use crate::tree::byte_strings;

verus! {

/// External phase associated with a cacheable Wasm build failure.
#[derive(Clone, Copy, Debug, PartialEq, Eq, Structural)]
pub enum WasmBuildPhase {
    /// Resolving Cargo's package graph.
    CargoMetadata,
    /// Reading the Cargo executable identity.
    CargoIdentity,
    /// Reading the Rust compiler identity.
    RustcIdentity,
    /// Compiling the selected Wasm packages.
    CargoBuild,
}

/// How an external command ended.
#[derive(Clone, Debug)]
pub struct CommandStatus {
    /// Portable exit code when the platform exposes one.
    pub code: Option<i32>,
    /// The status as the platform renders it.
    pub text: String,
}

/// Structured failure from a cacheable Wasm build.
#[derive(Debug)]
pub enum WasmBuildError {
    /// The caller supplied an incomplete or inconsistent specification.
    InvalidSpec {
        /// What is wrong with the specification.
        message: String,
    },
    /// A filesystem operation failed.
    Io {
        /// What was attempted.
        operation: String,
        /// Where it was attempted.
        path: Vec<u8>,
        /// Rendered cause.
        source: String,
    },
    /// An external command could not be launched.
    CommandSpawn {
        /// What the command was for.
        phase: WasmBuildPhase,
        /// Executable that could not be launched.
        program: Vec<u8>,
        /// Rendered cause.
        source: String,
    },
    /// An external command completed unsuccessfully.
    CommandFailed {
        /// What the command was for.
        phase: WasmBuildPhase,
        /// How the command ended.
        status: CommandStatus,
        /// Captured standard output.
        stdout: String,
        /// Captured standard error.
        stderr: String,
    },
    /// Cargo metadata did not contain the expected package graph.
    InvalidMetadata {
        /// What is wrong with the metadata.
        message: String,
    },
    /// A discovered Cargo configuration could not be interpreted exactly.
    InvalidCargoConfiguration {
        /// Path of the configuration.
        path: Vec<u8>,
        /// What is wrong with it.
        message: String,
    },
    /// Cargo succeeded without producing every declared Wasm artifact.
    MissingArtifacts {
        /// Artifacts that are missing or empty.
        paths: Vec<Vec<u8>>,
    },
    /// Declared inputs changed while Cargo was building.
    InputsChangedDuringBuild {
        /// Digest before the build.
        before: InputDigest,
        /// Digest after the build.
        after: InputDigest,
    },
    /// Another concurrent reader invalidated the prepared input snapshot before publication.
    PreparedInputSnapshotInvalidated,
    /// A build failed and its incomplete fingerprint directory could not be removed.
    FailedBuildCleanup {
        /// Failure of the build itself.
        build_error: Box<WasmBuildError>,
        /// Directory that could not be removed.
        path: Vec<u8>,
        /// Rendered cause.
        source: String,
    },
}

/// Name of a build phase.
pub open spec fn phase_text(phase: WasmBuildPhase) -> Seq<char> {
    match phase {
        WasmBuildPhase::CargoMetadata => "cargo metadata"@,
        WasmBuildPhase::CargoIdentity => "Cargo identity"@,
        WasmBuildPhase::RustcIdentity => "Rust compiler identity"@,
        WasmBuildPhase::CargoBuild => "cargo build"@,
    }
}

impl WasmBuildPhase {
    /// Name of the phase.
    pub fn render(self) -> (text: &'static str)
        ensures
            text@ == phase_text(self),
    {
        match self {
            WasmBuildPhase::CargoMetadata => "cargo metadata",
            WasmBuildPhase::CargoIdentity => "Cargo identity",
            WasmBuildPhase::RustcIdentity => "Rust compiler identity",
            WasmBuildPhase::CargoBuild => "cargo build",
        }
    }
}

/// Paths as text, separated by a comma and a space.
pub open spec fn paths_text(paths: Seq<Seq<u8>>) -> Seq<char>
    decreases paths.len(),
{
    if paths.len() == 0 {
        seq![]
    } else if paths.len() == 1 {
        crate::text::lossy_text(paths[0])
    } else {
        paths_text(paths.drop_last()) + ", "@ + crate::text::lossy_text(paths.last())
    }
}

fn render_paths(paths: &Vec<Vec<u8>>) -> (text: String)
    ensures
        text@ == paths_text(byte_strings(paths@)),
{
    let ghost all = byte_strings(paths@);
    let mut text = String::new();
    let mut at: usize = 0;
    assert(all.take(0) =~= seq![]);
    while at < paths.len()
        invariant
            at <= paths@.len(),
            all == byte_strings(paths@),
            text@ == paths_text(all.take(at as int)),
        decreases paths.len() - at,
    {
        proof {
            assert(all.take(at + 1).drop_last() =~= all.take(at as int));
            assert(all.take(at + 1).last() == all[at as int]);
            assert(at == 0 ==> all.take(at as int) =~= seq![]);
        }
        if at > 0 {
            text.append(", ");
        }
        text.append(lossy(paths[at].as_slice()).as_str());
        assert(text@ =~= paths_text(all.take(at + 1)));
        at = at + 1;
    }
    assert(all.take(at as int) =~= all);
    text
}

/// The message of a failure.
pub open spec fn error_text(error: WasmBuildError) -> Seq<char>
    decreases error,
{
    match error {
        WasmBuildError::InvalidSpec { message } => "invalid Wasm build spec: "@ + message@,
        WasmBuildError::Io { operation, path, source } => "failed to "@ + operation@ + " at "@
            + crate::text::lossy_text(path@) + ": "@ + source@,
        WasmBuildError::CommandSpawn { phase, program, source } => "failed to launch "@
            + phase_text(phase) + " using `"@ + crate::text::lossy_text(program@) + "`: "@
            + source@,
        WasmBuildError::CommandFailed { phase, status, stdout, stderr } => phase_text(phase)
            + " failed with "@ + status.text@ + "\nstdout:\n"@ + stdout@ + "\nstderr:\n"@ + stderr@,
        WasmBuildError::InvalidMetadata { message } => "invalid Cargo metadata: "@ + message@,
        WasmBuildError::InvalidCargoConfiguration { path, message } =>
            "invalid Cargo configuration at "@ + crate::text::lossy_text(path@) + ": "@ + message@,
        WasmBuildError::MissingArtifacts { paths } =>
            "cargo build succeeded without producing: "@ + paths_text(byte_strings(paths@)),
        WasmBuildError::InputsChangedDuringBuild { before, after } =>
            "Wasm build inputs changed while Cargo was running: "@ + hex(before@) + " -> "@ + hex(
            after@,
        ),
        WasmBuildError::PreparedInputSnapshotInvalidated =>
            "the prepared Wasm input snapshot was invalidated before artifact publication"@,
        WasmBuildError::FailedBuildCleanup { build_error, path, source } =>
            "Wasm build failed ("@ + error_text(*build_error)
            + ") and its incomplete target directory at "@ + crate::text::lossy_text(path@)
            + " could not be removed: "@ + source@,
    }
}

/// Whether a failure says that the declared inputs changed during the build.
pub open spec fn is_input_change(error: WasmBuildError) -> bool
    decreases error,
{
    match error {
        WasmBuildError::InputsChangedDuringBuild { .. } => true,
        WasmBuildError::FailedBuildCleanup { build_error, .. } => is_input_change(*build_error),
        _ => false,
    }
}

impl WasmBuildError {
    /// The message of the failure.
    pub fn render(&self) -> (text: String)
        ensures
            text@ == error_text(*self),
        decreases *self,
    {
        match self {
            WasmBuildError::InvalidSpec { message } => {
                let mut text = "invalid Wasm build spec: ".to_owned();
                text.append(message.as_str());
                text
            },
            WasmBuildError::Io { operation, path, source } => {
                let mut text = "failed to ".to_owned();
                text.append(operation.as_str());
                text.append(" at ");
                text.append(lossy(path.as_slice()).as_str());
                text.append(": ");
                text.append(source.as_str());
                text
            },
            WasmBuildError::CommandSpawn { phase, program, source } => {
                let mut text = "failed to launch ".to_owned();
                text.append(phase.render());
                text.append(" using `");
                text.append(lossy(program.as_slice()).as_str());
                text.append("`: ");
                text.append(source.as_str());
                text
            },
            WasmBuildError::CommandFailed { phase, status, stdout, stderr } => {
                let mut text = phase.render().to_owned();
                text.append(" failed with ");
                text.append(status.text.as_str());
                text.append("\nstdout:\n");
                text.append(stdout.as_str());
                text.append("\nstderr:\n");
                text.append(stderr.as_str());
                text
            },
            WasmBuildError::InvalidMetadata { message } => {
                let mut text = "invalid Cargo metadata: ".to_owned();
                text.append(message.as_str());
                text
            },
            WasmBuildError::InvalidCargoConfiguration { path, message } => {
                let mut text = "invalid Cargo configuration at ".to_owned();
                text.append(lossy(path.as_slice()).as_str());
                text.append(": ");
                text.append(message.as_str());
                text
            },
            WasmBuildError::MissingArtifacts { paths } => {
                let mut text = "cargo build succeeded without producing: ".to_owned();
                text.append(render_paths(paths).as_str());
                text
            },
            WasmBuildError::InputsChangedDuringBuild { before, after } => {
                let mut text = "Wasm build inputs changed while Cargo was running: ".to_owned();
                text.append(before.to_hex().as_str());
                text.append(" -> ");
                text.append(after.to_hex().as_str());
                text
            },
            WasmBuildError::PreparedInputSnapshotInvalidated => {
                "the prepared Wasm input snapshot was invalidated before artifact publication".to_owned()
            },
            WasmBuildError::FailedBuildCleanup { build_error, path, source } => {
                let mut text = "Wasm build failed (".to_owned();
                text.append(build_error.render().as_str());
                text.append(") and its incomplete target directory at ");
                text.append(lossy(path.as_slice()).as_str());
                text.append(" could not be removed: ");
                text.append(source.as_str());
                text
            },
        }
    }

    /// Whether the failure says that the declared inputs changed during the build.
    pub fn indicates_input_change(&self) -> (changed: bool)
        ensures
            changed == is_input_change(*self),
        decreases *self,
    {
        match self {
            WasmBuildError::InputsChangedDuringBuild { .. } => true,
            WasmBuildError::FailedBuildCleanup { build_error, .. } => {
                build_error.indicates_input_change()
            },
            _ => false,
        }
    }
}

/// The error for Cargo metadata that cannot be read as a package graph.
pub fn invalid_metadata(message: &str) -> (error: WasmBuildError)
    ensures
        error matches WasmBuildError::InvalidMetadata { message: found } && found@ == message@,
{
    WasmBuildError::InvalidMetadata { message: message.to_owned() }
}

/// The error for a specification that cannot be built.
pub fn invalid_spec(message: &str) -> (error: WasmBuildError)
    ensures
        error matches WasmBuildError::InvalidSpec { message: found } && found@ == message@,
{
    WasmBuildError::InvalidSpec { message: message.to_owned() }
}

} // verus!

//! External commands of a build, and what their output amounts to.

use vstd::prelude::*;
use vstd::string::*;
use vstd::utf8::encode_utf8;
use super::error::{CommandStatus, WasmBuildError, WasmBuildPhase};
use super::identity::{metadata_arguments, resolution_arguments};
use super::spec::{effective_rustc, WasmBuildSpec};
use crate::document::{json_of, read_json, Document, DocumentView};
use crate::settings::{copy_bytes, copy_settings, copy_strings, settings_view, Setting, SettingView};
use crate::text::{bytes_of, lossy, lossy_text, texts};
use crate::tree::byte_strings;

verus! {

/// An external command to be run.
#[derive(Debug)]
pub struct CommandPlan {
    /// Executable.
    pub program: Vec<u8>,
    /// Working directory.
    pub current_dir: Vec<u8>,
    /// Arguments, in order.
    pub arguments: Vec<Vec<u8>>,
    /// Environment settings, in the order in which they are applied.
    pub environment: Vec<Setting>,
}

/// What a command says.
pub struct PlanView {
    /// Executable.
    pub program: Seq<u8>,
    /// Working directory.
    pub current_dir: Seq<u8>,
    /// Arguments, in order.
    pub arguments: Seq<Seq<u8>>,
    /// Environment settings, in the order in which they are applied.
    pub environment: Seq<SettingView>,
}

impl View for CommandPlan {
    type V = PlanView;

    open spec fn view(&self) -> PlanView {
        PlanView {
            program: self.program@,
            current_dir: self.current_dir@,
            arguments: byte_strings(self.arguments@),
            environment: settings_view(self.environment@),
        }
    }
}

/// The command that tells which Cargo is used.
pub fn cargo_identity_command(spec: &WasmBuildSpec) -> (plan: CommandPlan)
    ensures
        plan@ == (PlanView {
            program: spec@.cargo_program,
            current_dir: spec@.workspace_root,
            arguments: seq![encode_utf8("--version"@), encode_utf8("--verbose"@)],
            environment: spec@.extra_env,
        }),
{
    let mut arguments: Vec<Vec<u8>> = Vec::new();
    arguments.push(bytes_of("--version"));
    arguments.push(bytes_of("--verbose"));
    assert(byte_strings(arguments@) =~= seq![encode_utf8("--version"@), encode_utf8("--verbose"@)]);
    CommandPlan {
        program: copy_bytes(spec.cargo_program()),
        current_dir: copy_bytes(spec.workspace_root()),
        arguments,
        environment: copy_settings(spec.extra_env()),
    }
}

/// The command that tells which Rust compiler is used.
pub fn rustc_identity_command(spec: &WasmBuildSpec) -> (plan: CommandPlan)
    ensures
        plan@ == (PlanView {
            program: effective_rustc(spec@),
            current_dir: spec@.workspace_root,
            arguments: seq![encode_utf8("-vV"@)],
            environment: spec@.extra_env,
        }),
{
    let mut arguments: Vec<Vec<u8>> = Vec::new();
    arguments.push(bytes_of("-vV"));
    assert(byte_strings(arguments@) =~= seq![encode_utf8("-vV"@)]);
    CommandPlan {
        program: spec.effective_rustc_program(),
        current_dir: copy_bytes(spec.workspace_root()),
        arguments,
        environment: copy_settings(spec.extra_env()),
    }
}

/// The command that resolves the package graph.
pub fn cargo_metadata_command(spec: &WasmBuildSpec) -> (plan: CommandPlan)
    ensures
        plan@ == (PlanView {
            program: spec@.cargo_program,
            current_dir: spec@.workspace_root,
            arguments: seq![
                encode_utf8("metadata"@),
                encode_utf8("--format-version"@),
                encode_utf8("1"@),
            ] + resolution_arguments(spec@.cargo_profile_args),
            environment: spec@.extra_env,
        }),
{
    let mut arguments: Vec<Vec<u8>> = Vec::new();
    arguments.push(bytes_of("metadata"));
    arguments.push(bytes_of("--format-version"));
    arguments.push(bytes_of("1"));
    let ghost head = byte_strings(arguments@);
    let mut selected = metadata_arguments(spec.cargo_profile_args());
    let ghost tail = byte_strings(selected@);
    arguments.append(&mut selected);
    proof {
        assert(head =~= seq![
            encode_utf8("metadata"@),
            encode_utf8("--format-version"@),
            encode_utf8("1"@),
        ]);
        assert(byte_strings(arguments@) =~= head + tail);
    }
    CommandPlan {
        program: copy_bytes(spec.cargo_program()),
        current_dir: copy_bytes(spec.workspace_root()),
        arguments,
        environment: copy_settings(spec.extra_env()),
    }
}

/// Arguments that select each of `packages`, in order.
pub open spec fn package_arguments(packages: Seq<Seq<char>>) -> Seq<Seq<u8>>
    decreases packages.len(),
{
    if packages.len() == 0 {
        seq![]
    } else {
        package_arguments(packages.drop_last()).push(encode_utf8("-p"@)).push(
            encode_utf8(packages.last()),
        )
    }
}

/// The command that builds the selected packages into `target_dir`.
///
/// An override of the target directory in the child environment counts before
/// `target_dir`.
pub fn cargo_build_command(spec: &WasmBuildSpec, target_dir: &[u8]) -> (plan: CommandPlan)
    ensures
        plan@ == (PlanView {
            program: spec@.cargo_program,
            current_dir: spec@.workspace_root,
            arguments: seq![
                encode_utf8("build"@),
                encode_utf8("--target"@),
                encode_utf8(spec@.target),
            ] + spec@.cargo_profile_args + package_arguments(spec@.packages),
            environment: seq![
                SettingView {
                    name: encode_utf8("CARGO_TARGET_DIR"@),
                    value: Some(target_dir@),
                },
            ] + spec@.extra_env,
        }),
{
    let mut arguments: Vec<Vec<u8>> = Vec::new();
    arguments.push(bytes_of("build"));
    arguments.push(bytes_of("--target"));
    arguments.push(bytes_of(spec.target()));
    let ghost first = byte_strings(arguments@);
    let mut profile = copy_strings(spec.cargo_profile_args());
    let ghost second = byte_strings(profile@);
    arguments.append(&mut profile);
    let ghost head = byte_strings(arguments@);
    proof {
        assert(first =~= seq![
            encode_utf8("build"@),
            encode_utf8("--target"@),
            encode_utf8(spec@.target),
        ]);
        assert(head =~= first + second);
    }
    let packages = spec.packages();
    let ghost names = spec@.packages;
    let mut at: usize = 0;
    assert(names.take(0) =~= seq![]);
    assert(head + package_arguments(names.take(0)) =~= head);
    while at < packages.len()
        invariant
            at <= packages@.len(),
            names == texts(packages@),
            byte_strings(arguments@) == head + package_arguments(names.take(at as int)),
        decreases packages.len() - at,
    {
        let ghost before = byte_strings(arguments@);
        arguments.push(bytes_of("-p"));
        arguments.push(bytes_of(packages[at].as_str()));
        proof {
            assert(names[at as int] == packages@[at as int]@);
            assert(byte_strings(arguments@) =~= before.push(encode_utf8("-p"@)).push(
                encode_utf8(names[at as int]),
            ));
            assert(names.take(at + 1).drop_last() =~= names.take(at as int));
            assert(names.take(at + 1).last() == names[at as int]);
            assert(byte_strings(arguments@) =~= head + package_arguments(names.take(at + 1)));
        }
        at = at + 1;
    }
    assert(names.take(at as int) =~= names);
    let mut environment: Vec<Setting> = Vec::new();
    environment.push(
        Setting { name: bytes_of("CARGO_TARGET_DIR"), value: Some(copy_bytes(target_dir)) },
    );
    let ghost own = settings_view(environment@);
    let mut extra = copy_settings(spec.extra_env());
    let ghost added = settings_view(extra@);
    environment.append(&mut extra);
    proof {
        assert(own =~= seq![
            SettingView { name: encode_utf8("CARGO_TARGET_DIR"@), value: Some(target_dir@) },
        ]);
        assert(settings_view(environment@) =~= own + added);
    }
    CommandPlan {
        program: copy_bytes(spec.cargo_program()),
        current_dir: copy_bytes(spec.workspace_root()),
        arguments,
        environment,
    }
}

/// What an external command left behind.
#[derive(Debug)]
pub struct CommandOutput {
    /// Whether the command succeeded.
    pub success: bool,
    /// How the command ended.
    pub status: CommandStatus,
    /// Captured standard output.
    pub stdout: Vec<u8>,
    /// Captured standard error.
    pub stderr: Vec<u8>,
}

/// Whether an error says that the command of `phase` failed with this output.
pub open spec fn is_command_failure(
    error: WasmBuildError,
    phase: WasmBuildPhase,
    output: CommandOutput,
) -> bool {
    error matches WasmBuildError::CommandFailed { phase: failed, status, stdout, stderr } && failed
        == phase && status == output.status && stdout@ == lossy_text(output.stdout@) && stderr@
        == lossy_text(output.stderr@)
}

/// The output of a command that succeeded.
pub fn ensure_command_success(phase: WasmBuildPhase, output: CommandOutput) -> (result: Result<
    CommandOutput,
    WasmBuildError,
>)
    ensures
        match result {
            Ok(kept) => output.success && kept == output,
            Err(error) => !output.success && is_command_failure(error, phase, output),
        },
{
    if output.success {
        return Ok(output);
    }
    Err(
        WasmBuildError::CommandFailed {
            phase,
            stdout: lossy(output.stdout.as_slice()),
            stderr: lossy(output.stderr.as_slice()),
            status: output.status,
        },
    )
}

/// What a tool says about itself: everything that it printed.
pub fn command_identity(phase: WasmBuildPhase, output: CommandOutput) -> (result: Result<
    Vec<u8>,
    WasmBuildError,
>)
    ensures
        match result {
            Ok(identity) => output.success && identity@ == output.stdout@ + output.stderr@,
            Err(error) => !output.success && is_command_failure(error, phase, output),
        },
{
    let CommandOutput { stdout, stderr, .. } = ensure_command_success(phase, output)?;
    let mut identity = stdout;
    let mut rest = stderr;
    identity.append(&mut rest);
    Ok(identity)
}

/// The package graph that Cargo printed.
pub fn cargo_metadata(output: CommandOutput) -> (result: Result<Document, WasmBuildError>)
    ensures
        match result {
            Ok(document) => output.success && json_of(output.stdout@) == Ok::<
                DocumentView,
                Seq<char>,
            >(document@),
            Err(error) => if output.success {
                json_of(output.stdout@) matches Err(cause) && (
                error matches WasmBuildError::InvalidMetadata { message } && message@
                    == "Cargo metadata was not valid JSON: "@ + cause)
            } else {
                is_command_failure(error, WasmBuildPhase::CargoMetadata, output)
            },
        },
{
    let CommandOutput { stdout, .. } = ensure_command_success(
        WasmBuildPhase::CargoMetadata,
        output,
    )?;
    match read_json(stdout.as_slice()) {
        Ok(document) => Ok(document),
        Err(cause) => {
            let mut message = "Cargo metadata was not valid JSON: ".to_owned();
            message.append(cause.as_str());
            Err(WasmBuildError::InvalidMetadata { message })
        },
    }
}

} // verus!

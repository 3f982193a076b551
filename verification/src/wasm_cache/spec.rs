//! Description of one cacheable Cargo Wasm build and its identity.

use vstd::prelude::*;
use vstd::string::*;
use vstd::utf8::encode_utf8;
use crate::cache_fs::{limits_identity, render_limits_identity, ArtifactCachePrunePolicy};
use crate::settings::{
    assign, copy_bytes, copy_optional, copy_settings, copy_strings, in_name_order,
    lemma_with_setting_order, lookup, setting_of, settings_view, with_setting, Setting, SettingView,
};
use crate::text::{bytes_of, copy_texts, texts};
use crate::timing::Duration;
use crate::tree::byte_strings;

verus! {

/// Version tag of the build fingerprint and of artifact stamps.
pub const CACHE_FORMAT_VERSION: &'static str = "ic-testkit-wasm-build-v1";

/// Compilation target of a build that does not name one.
pub const DEFAULT_TARGET: &'static str = "wasm32-unknown-unknown";

/// Failure handling for integrated shared incremental-target maintenance.
#[derive(Clone, Copy, Debug, PartialEq, Eq, Structural)]
pub enum SharedIncrementalTargetMaintenanceFailureMode {
    /// Fail the Wasm acquisition when scheduled maintenance fails.
    Strict,
    /// Preserve the acquisition and attach a structured failed-maintenance outcome.
    BestEffort,
}

impl Default for SharedIncrementalTargetMaintenanceFailureMode {
    fn default() -> (mode: Self)
        ensures
            mode is Strict,
    {
        SharedIncrementalTargetMaintenanceFailureMode::Strict
    }
}

/// Whole-target retention limits for caller-owned shared Cargo state.
///
/// A shared Cargo target has no safe per-entry boundary: when either limit is
/// exceeded, maintenance clears everything but the coordination metadata.
#[derive(Clone, Copy, Debug, PartialEq, Eq, Structural)]
pub struct SharedIncrementalTargetPrunePolicy {
    /// Configured maximum time since recorded build use.
    pub max_age: Option<Duration>,
    /// Configured maximum logical target size.
    pub max_size_bytes: Option<u64>,
}

impl Default for SharedIncrementalTargetPrunePolicy {
    fn default() -> (policy: Self)
        ensures
            policy.max_age is None,
            policy.max_size_bytes is None,
    {
        SharedIncrementalTargetPrunePolicy { max_age: None, max_size_bytes: None }
    }
}

impl SharedIncrementalTargetPrunePolicy {
    /// Create an explicit policy without a clearing threshold.
    pub fn new() -> (policy: Self)
        ensures
            policy.max_age is None,
            policy.max_size_bytes is None,
    {
        SharedIncrementalTargetPrunePolicy { max_age: None, max_size_bytes: None }
    }

    /// Clear shared Cargo state when its recorded use is older than `max_age`.
    pub fn with_max_age(self, max_age: Duration) -> (policy: Self)
        ensures
            policy == (SharedIncrementalTargetPrunePolicy { max_age: Some(max_age), ..self }),
    {
        SharedIncrementalTargetPrunePolicy { max_age: Some(max_age), ..self }
    }

    /// Clear shared Cargo state when its logical size exceeds `bytes`.
    pub fn with_max_size_bytes(self, bytes: u64) -> (policy: Self)
        ensures
            policy == (SharedIncrementalTargetPrunePolicy { max_size_bytes: Some(bytes), ..self }),
    {
        SharedIncrementalTargetPrunePolicy { max_size_bytes: Some(bytes), ..self }
    }

    /// Configured maximum time since recorded build use.
    pub fn max_age(self) -> (age: Option<Duration>)
        ensures
            age == self.max_age,
    {
        self.max_age
    }

    /// Configured maximum logical target size.
    pub fn max_size_bytes(self) -> (bytes: Option<u64>)
        ensures
            bytes == self.max_size_bytes,
    {
        self.max_size_bytes
    }

    /// Text under which a completed maintenance pass with this policy is recorded.
    pub fn maintenance_identity(self) -> (text: String)
        ensures
            text@ == limits_identity(self.max_age, self.max_size_bytes),
    {
        render_limits_identity(self.max_age, self.max_size_bytes)
    }
}

/// Scheduled shared incremental-target maintenance attached to a Wasm acquisition.
#[derive(Clone, Copy, Debug, PartialEq, Eq, Structural)]
pub struct SharedIncrementalTargetMaintenanceConfig {
    /// Configured whole-target retention policy.
    pub policy: SharedIncrementalTargetPrunePolicy,
    /// Minimum interval between successful matching maintenance passes.
    pub minimum_interval: Duration,
    /// Configured maintenance failure handling.
    pub failure_mode: SharedIncrementalTargetMaintenanceFailureMode,
}

impl SharedIncrementalTargetMaintenanceConfig {
    /// Schedule one strict retention pass at most once per interval.
    pub fn new(policy: SharedIncrementalTargetPrunePolicy, minimum_interval: Duration) -> (config: Self)
        ensures
            config == (SharedIncrementalTargetMaintenanceConfig {
                policy,
                minimum_interval,
                failure_mode: SharedIncrementalTargetMaintenanceFailureMode::Strict,
            }),
    {
        SharedIncrementalTargetMaintenanceConfig {
            policy,
            minimum_interval,
            failure_mode: SharedIncrementalTargetMaintenanceFailureMode::Strict,
        }
    }

    /// Select whether an integrated maintenance failure fails the acquisition.
    pub fn with_failure_mode(
        self,
        failure_mode: SharedIncrementalTargetMaintenanceFailureMode,
    ) -> (config: Self)
        ensures
            config == (SharedIncrementalTargetMaintenanceConfig { failure_mode, ..self }),
    {
        SharedIncrementalTargetMaintenanceConfig { failure_mode, ..self }
    }

    /// Configured whole-target retention policy.
    pub fn policy(self) -> (policy: SharedIncrementalTargetPrunePolicy)
        ensures
            policy == self.policy,
    {
        self.policy
    }

    /// Minimum interval between successful matching maintenance passes.
    pub fn minimum_interval(self) -> (interval: Duration)
        ensures
            interval == self.minimum_interval,
    {
        self.minimum_interval
    }

    /// Configured maintenance failure handling.
    pub fn failure_mode(self) -> (mode: SharedIncrementalTargetMaintenanceFailureMode)
        ensures
            mode == self.failure_mode,
    {
        self.failure_mode
    }
}

/// Cargo-target ownership mode for one exact cached Wasm build.
#[derive(Clone, Debug)]
pub enum WasmBuildCacheMode {
    /// Build each exact fingerprint in its own content-addressed Cargo target.
    Isolated,
    /// Build misses in caller-owned shared Cargo incremental state, then cache final Wasm files.
    SharedIncremental {
        /// Mutable Cargo target directory shared across source fingerprints.
        target_dir: Vec<u8>,
    },
}

/// What a cache mode says.
pub enum CacheModeView {
    /// Each exact fingerprint has its own Cargo target.
    Isolated,
    /// Misses are built in this shared Cargo target.
    SharedIncremental(Seq<u8>),
}

impl View for WasmBuildCacheMode {
    type V = CacheModeView;

    open spec fn view(&self) -> CacheModeView {
        match self {
            WasmBuildCacheMode::Isolated => CacheModeView::Isolated,
            WasmBuildCacheMode::SharedIncremental { target_dir } => CacheModeView::SharedIncremental(
                target_dir@,
            ),
        }
    }
}

/// Complete caller-owned description of one cacheable Cargo Wasm build.
///
/// Paths, arguments and environment values are raw bytes.
#[derive(Debug)]
pub struct WasmBuildSpec {
    workspace_root: Vec<u8>,
    target_dir: Vec<u8>,
    packages: Vec<String>,
    profile_target_dir: String,
    cargo_profile_args: Vec<Vec<u8>>,
    extra_env: Vec<Setting>,
    inherited_env: Vec<Setting>,
    additional_inputs: Vec<Vec<u8>>,
    target: String,
    cargo_program: Vec<u8>,
    rustc_program: Vec<u8>,
    cache_mode: WasmBuildCacheMode,
    prune_policy: Option<ArtifactCachePrunePolicy>,
    prune_interval: Option<Duration>,
    shared_incremental_maintenance_config: Option<SharedIncrementalTargetMaintenanceConfig>,
}

/// What a build description says.
#[verifier::ext_equal]
pub struct WasmBuildSpecView {
    /// Workspace containing the selected Cargo packages.
    pub workspace_root: Seq<u8>,
    /// Cargo target directory containing artifacts, lock, and stamps.
    pub target_dir: Seq<u8>,
    /// Selected Cargo package names.
    pub packages: Seq<Seq<char>>,
    /// Output subdirectory of the Cargo profile.
    pub profile_target_dir: Seq<char>,
    /// Cargo profile and feature arguments.
    pub cargo_profile_args: Seq<Seq<u8>>,
    /// Environment overrides of child processes, by name.
    pub extra_env: Seq<SettingView>,
    /// Ambient environment names that affect the build, each without a value.
    pub inherited_env: Seq<SettingView>,
    /// Declared inputs that Cargo does not know of.
    pub additional_inputs: Seq<Seq<u8>>,
    /// Compilation target.
    pub target: Seq<char>,
    /// Cargo executable.
    pub cargo_program: Seq<u8>,
    /// Rust compiler executable.
    pub rustc_program: Seq<u8>,
    /// Cargo-target ownership mode.
    pub cache_mode: CacheModeView,
    /// Exact-entry retention policy.
    pub prune_policy: Option<ArtifactCachePrunePolicy>,
    /// Minimum interval between exact-entry retention attempts.
    pub prune_interval: Option<Duration>,
    /// Shared incremental-target maintenance.
    pub shared_incremental_maintenance: Option<SharedIncrementalTargetMaintenanceConfig>,
}

impl View for WasmBuildSpec {
    type V = WasmBuildSpecView;

    closed spec fn view(&self) -> WasmBuildSpecView {
        WasmBuildSpecView {
            workspace_root: self.workspace_root@,
            target_dir: self.target_dir@,
            packages: texts(self.packages@),
            profile_target_dir: self.profile_target_dir@,
            cargo_profile_args: byte_strings(self.cargo_profile_args@),
            extra_env: settings_view(self.extra_env@),
            inherited_env: settings_view(self.inherited_env@),
            additional_inputs: byte_strings(self.additional_inputs@),
            target: self.target@,
            cargo_program: self.cargo_program@,
            rustc_program: self.rustc_program@,
            cache_mode: self.cache_mode@,
            prune_policy: self.prune_policy,
            prune_interval: self.prune_interval,
            shared_incremental_maintenance: self.shared_incremental_maintenance_config,
        }
    }
}

/// The settings after setting each of `added` in turn.
pub open spec fn with_settings(
    settings: Seq<SettingView>,
    added: Seq<SettingView>,
) -> Seq<SettingView>
    decreases added.len(),
{
    if added.len() == 0 {
        settings
    } else {
        let before = with_settings(settings, added.drop_last());
        with_setting(before, added.last().name, added.last().value)
    }
}

/// Setting names in turn keeps the names in order.
pub proof fn lemma_with_settings_order(settings: Seq<SettingView>, added: Seq<SettingView>)
    requires
        in_name_order(settings),
    ensures
        in_name_order(with_settings(settings, added)),
    decreases added.len(),
{
    if added.len() > 0 {
        let before = with_settings(settings, added.drop_last());
        lemma_with_settings_order(settings, added.drop_last());
        lemma_with_setting_order(before, added.last().name, added.last().value);
    }
}

/// Set each of `added` in turn.
pub fn set_all(settings: &mut Vec<Setting>, added: &Vec<Setting>)
    ensures
        settings_view(final(settings)@) == with_settings(
            settings_view(old(settings)@),
            settings_view(added@),
        ),
{
    let ghost start = settings_view(settings@);
    let ghost all = settings_view(added@);
    let mut at: usize = 0;
    assert(all.take(0) =~= seq![]);
    while at < added.len()
        invariant
            at <= added@.len(),
            all == settings_view(added@),
            settings_view(settings@) == with_settings(start, all.take(at as int)),
        decreases added.len() - at,
    {
        proof {
            assert(all.take(at + 1).drop_last() =~= all.take(at as int));
            assert(all.take(at + 1).last() == added@[at as int]@);
        }
        assign(
            settings,
            copy_bytes(added[at].name.as_slice()),
            copy_optional(&added[at].value),
        );
        at = at + 1;
    }
    assert(all.take(at as int) =~= all);
}

fn copy_mode(mode: &WasmBuildCacheMode) -> (copy: WasmBuildCacheMode)
    ensures
        copy@ == mode@,
{
    match mode {
        WasmBuildCacheMode::Isolated => WasmBuildCacheMode::Isolated,
        WasmBuildCacheMode::SharedIncremental { target_dir } => WasmBuildCacheMode::SharedIncremental {
            target_dir: copy_bytes(target_dir.as_slice()),
        },
    }
}

impl WasmBuildSpec {
    /// Describe one Cargo build targeting `wasm32-unknown-unknown`.
    ///
    /// `profile_target_dir` is Cargo's output subdirectory, such as `debug`,
    /// `release`, or the name supplied to `--profile`. The executables are
    /// `cargo` and `rustc` until they are overridden.
    pub fn new(
        workspace_root: &[u8],
        target_dir: &[u8],
        packages: Vec<String>,
        profile_target_dir: &str,
    ) -> (spec: Self)
        ensures
            spec@ == (WasmBuildSpecView {
                workspace_root: workspace_root@,
                target_dir: target_dir@,
                packages: texts(packages@),
                profile_target_dir: profile_target_dir@,
                cargo_profile_args: seq![],
                extra_env: seq![],
                inherited_env: seq![],
                additional_inputs: seq![],
                target: DEFAULT_TARGET@,
                cargo_program: encode_utf8("cargo"@),
                rustc_program: encode_utf8("rustc"@),
                cache_mode: CacheModeView::Isolated,
                prune_policy: None,
                prune_interval: None,
                shared_incremental_maintenance: None,
            }),
    {
        let spec = WasmBuildSpec {
            workspace_root: copy_bytes(workspace_root),
            target_dir: copy_bytes(target_dir),
            packages,
            profile_target_dir: profile_target_dir.to_owned(),
            cargo_profile_args: Vec::new(),
            extra_env: Vec::new(),
            inherited_env: Vec::new(),
            additional_inputs: Vec::new(),
            target: DEFAULT_TARGET.to_owned(),
            cargo_program: bytes_of("cargo"),
            rustc_program: bytes_of("rustc"),
            cache_mode: WasmBuildCacheMode::Isolated,
            prune_policy: None,
            prune_interval: None,
            shared_incremental_maintenance_config: None,
        };
        proof {
            assert(byte_strings(spec.cargo_profile_args@) =~= seq![]);
            assert(byte_strings(spec.additional_inputs@) =~= seq![]);
            assert(settings_view(spec.extra_env@) =~= seq![]);
            assert(settings_view(spec.inherited_env@) =~= seq![]);
        }
        spec
    }

    /// A description that says the same.
    pub fn duplicate(&self) -> (copy: Self)
        ensures
            copy@ == self@,
    {
        WasmBuildSpec {
            workspace_root: copy_bytes(self.workspace_root.as_slice()),
            target_dir: copy_bytes(self.target_dir.as_slice()),
            packages: copy_texts(&self.packages),
            profile_target_dir: self.profile_target_dir.clone(),
            cargo_profile_args: copy_strings(&self.cargo_profile_args),
            extra_env: copy_settings(&self.extra_env),
            inherited_env: copy_settings(&self.inherited_env),
            additional_inputs: copy_strings(&self.additional_inputs),
            target: self.target.clone(),
            cargo_program: copy_bytes(self.cargo_program.as_slice()),
            rustc_program: copy_bytes(self.rustc_program.as_slice()),
            cache_mode: copy_mode(&self.cache_mode),
            prune_policy: self.prune_policy,
            prune_interval: self.prune_interval,
            shared_incremental_maintenance_config: self.shared_incremental_maintenance_config,
        }
    }

    /// Set Cargo profile and feature arguments used for the build and fingerprint.
    pub fn with_cargo_profile_args(self, arguments: Vec<Vec<u8>>) -> (spec: Self)
        ensures
            spec@ == (WasmBuildSpecView { cargo_profile_args: byte_strings(arguments@), ..self@ }),
    {
        WasmBuildSpec { cargo_profile_args: arguments, ..self }
    }

    /// Set deterministic child-process environment overrides; the last value of a name counts.
    pub fn with_extra_env(self, environment: Vec<Setting>) -> (spec: Self)
        ensures
            spec@ == (WasmBuildSpecView {
                extra_env: with_settings(seq![], settings_view(environment@)),
                ..self@
            }),
    {
        let mut extra_env: Vec<Setting> = Vec::new();
        assert(settings_view(extra_env@) =~= seq![]);
        set_all(&mut extra_env, &environment);
        WasmBuildSpec { extra_env, ..self }
    }

    /// Add ambient environment names whose current values affect the build.
    ///
    /// Common Rust and Cargo toolchain variables are included automatically.
    pub fn with_inherited_env(self, names: &Vec<Vec<u8>>) -> (spec: Self)
        ensures
            spec@ == (WasmBuildSpecView {
                inherited_env: with_settings(
                    self@.inherited_env,
                    unset_names(byte_strings(names@)),
                ),
                ..self@
            }),
    {
        let mut inherited_env = self.inherited_env;
        let added = unset_settings(names);
        set_all(&mut inherited_env, &added);
        WasmBuildSpec { inherited_env, ..self }
    }

    /// Add files or directories not discoverable through Cargo's local dependency graph.
    ///
    /// Relative paths are resolved from the workspace root.
    pub fn with_additional_inputs(self, paths: Vec<Vec<u8>>) -> (spec: Self)
        ensures
            spec@ == (WasmBuildSpecView {
                additional_inputs: self@.additional_inputs + byte_strings(paths@),
                ..self@
            }),
    {
        let mut paths = paths;
        let ghost added = paths@;
        let mut additional_inputs = self.additional_inputs;
        additional_inputs.append(&mut paths);
        assert(byte_strings(additional_inputs@) =~= self@.additional_inputs + byte_strings(added));
        WasmBuildSpec { additional_inputs, ..self }
    }

    /// Override the Cargo compilation target.
    pub fn with_target(self, target: &str) -> (spec: Self)
        ensures
            spec@ == (WasmBuildSpecView { target: target@, ..self@ }),
    {
        WasmBuildSpec { target: target.to_owned(), ..self }
    }

    /// Override the Cargo executable used by metadata, identity, and build commands.
    pub fn with_cargo_program(self, program: Vec<u8>) -> (spec: Self)
        ensures
            spec@ == (WasmBuildSpecView { cargo_program: program@, ..self@ }),
    {
        WasmBuildSpec { cargo_program: program, ..self }
    }

    /// Override the Rust compiler executable used to fingerprint the toolchain.
    pub fn with_rustc_program(self, program: Vec<u8>) -> (spec: Self)
        ensures
            spec@ == (WasmBuildSpecView { rustc_program: program@, ..self@ }),
    {
        WasmBuildSpec { rustc_program: program, ..self }
    }

    /// Build cache misses in one caller-owned shared Cargo incremental target.
    ///
    /// Exact final Wasm artifacts still live in the content-addressed cache.
    pub fn with_shared_incremental_target(self, target_dir: Vec<u8>) -> (spec: Self)
        ensures
            spec@ == (WasmBuildSpecView {
                cache_mode: CacheModeView::SharedIncremental(target_dir@),
                ..self@
            }),
    {
        WasmBuildSpec { cache_mode: WasmBuildCacheMode::SharedIncremental { target_dir }, ..self }
    }

    /// Schedule caller-owned shared-target retention as part of acquisition.
    pub fn with_shared_incremental_target_maintenance_at_most_every(
        self,
        policy: SharedIncrementalTargetPrunePolicy,
        minimum_interval: Duration,
    ) -> (spec: Self)
        ensures
            spec@ == (WasmBuildSpecView {
                shared_incremental_maintenance: Some(
                    SharedIncrementalTargetMaintenanceConfig {
                        policy,
                        minimum_interval,
                        failure_mode: SharedIncrementalTargetMaintenanceFailureMode::Strict,
                    },
                ),
                ..self@
            }),
    {
        WasmBuildSpec {
            shared_incremental_maintenance_config: Some(
                SharedIncrementalTargetMaintenanceConfig::new(policy, minimum_interval),
            ),
            ..self
        }
    }

    /// Attach an explicit shared-target maintenance configuration.
    pub fn with_shared_incremental_target_maintenance(
        self,
        config: SharedIncrementalTargetMaintenanceConfig,
    ) -> (spec: Self)
        ensures
            spec@ == (WasmBuildSpecView {
                shared_incremental_maintenance: Some(config),
                ..self@
            }),
    {
        WasmBuildSpec { shared_incremental_maintenance_config: Some(config), ..self }
    }

    /// Apply cache retention under the build operation's existing process lock.
    pub fn with_prune_policy(self, policy: ArtifactCachePrunePolicy) -> (spec: Self)
        ensures
            spec@ == (WasmBuildSpecView {
                prune_policy: Some(policy),
                prune_interval: None,
                ..self@
            }),
    {
        WasmBuildSpec { prune_policy: Some(policy), prune_interval: None, ..self }
    }

    /// Apply exact-entry retention at most once per `minimum_interval`.
    pub fn with_prune_policy_at_most_every(
        self,
        policy: ArtifactCachePrunePolicy,
        minimum_interval: Duration,
    ) -> (spec: Self)
        ensures
            spec@ == (WasmBuildSpecView {
                prune_policy: Some(policy),
                prune_interval: Some(minimum_interval),
                ..self@
            }),
    {
        WasmBuildSpec { prune_policy: Some(policy), prune_interval: Some(minimum_interval), ..self }
    }

    /// Workspace containing the selected Cargo packages.
    pub fn workspace_root(&self) -> (path: &[u8])
        ensures
            path@ == self@.workspace_root,
    {
        self.workspace_root.as_slice()
    }

    /// Cargo target directory containing artifacts, lock, and stamps.
    pub fn target_dir(&self) -> (path: &[u8])
        ensures
            path@ == self@.target_dir,
    {
        self.target_dir.as_slice()
    }

    /// Selected Cargo package names.
    pub fn packages(&self) -> (packages: &Vec<String>)
        ensures
            texts(packages@) == self@.packages,
    {
        &self.packages
    }

    /// Output subdirectory of the Cargo profile.
    pub fn profile_target_dir(&self) -> (directory: &str)
        ensures
            directory@ == self@.profile_target_dir,
    {
        self.profile_target_dir.as_str()
    }

    /// Cargo profile and feature arguments.
    pub fn cargo_profile_args(&self) -> (arguments: &Vec<Vec<u8>>)
        ensures
            byte_strings(arguments@) == self@.cargo_profile_args,
    {
        &self.cargo_profile_args
    }

    /// Environment overrides of child processes.
    pub fn extra_env(&self) -> (settings: &Vec<Setting>)
        ensures
            settings_view(settings@) == self@.extra_env,
    {
        &self.extra_env
    }

    /// Ambient environment names that affect the build.
    pub fn inherited_env(&self) -> (settings: &Vec<Setting>)
        ensures
            settings_view(settings@) == self@.inherited_env,
    {
        &self.inherited_env
    }

    /// Declared inputs that Cargo does not know of.
    pub fn additional_inputs(&self) -> (paths: &Vec<Vec<u8>>)
        ensures
            byte_strings(paths@) == self@.additional_inputs,
    {
        &self.additional_inputs
    }

    /// Compilation target.
    pub fn target(&self) -> (target: &str)
        ensures
            target@ == self@.target,
    {
        self.target.as_str()
    }

    /// Cargo executable.
    pub fn cargo_program(&self) -> (program: &[u8])
        ensures
            program@ == self@.cargo_program,
    {
        self.cargo_program.as_slice()
    }

    /// Configured Rust compiler executable.
    pub fn rustc_program(&self) -> (program: &[u8])
        ensures
            program@ == self@.rustc_program,
    {
        self.rustc_program.as_slice()
    }

    /// Cargo-target ownership mode used for cache misses.
    pub fn cache_mode(&self) -> (mode: &WasmBuildCacheMode)
        ensures
            mode@ == self@.cache_mode,
    {
        &self.cache_mode
    }

    /// Exact-entry retention policy attached to this specification, when configured.
    pub fn prune_policy(&self) -> (policy: Option<ArtifactCachePrunePolicy>)
        ensures
            policy == self@.prune_policy,
    {
        self.prune_policy
    }

    /// Minimum interval between exact-entry retention attempts, when scheduled.
    pub fn prune_interval(&self) -> (interval: Option<Duration>)
        ensures
            interval == self@.prune_interval,
    {
        self.prune_interval
    }

    /// Shared incremental-target maintenance attached to this specification.
    pub fn shared_incremental_target_maintenance(
        &self,
    ) -> (config: Option<SharedIncrementalTargetMaintenanceConfig>)
        ensures
            config == self@.shared_incremental_maintenance,
    {
        self.shared_incremental_maintenance_config
    }

    /// Rust compiler whose identity the fingerprint takes in.
    ///
    /// An override of `RUSTC` in the child environment counts before the
    /// configured executable.
    pub fn effective_rustc_program(&self) -> (program: Vec<u8>)
        ensures
            program@ == effective_rustc(self@),
    {
        let name = bytes_of("RUSTC");
        match lookup(&self.extra_env, name.as_slice()) {
            Some(setting) => match &setting.value {
                Some(value) => copy_bytes(value.as_slice()),
                None => copy_bytes(self.rustc_program.as_slice()),
            },
            None => copy_bytes(self.rustc_program.as_slice()),
        }
    }
}

/// Rust compiler whose identity the fingerprint takes in.
pub open spec fn effective_rustc(spec: WasmBuildSpecView) -> Seq<u8> {
    match setting_of(spec.extra_env, encode_utf8("RUSTC"@)) {
        Some(Some(value)) => value,
        _ => spec.rustc_program,
    }
}

/// Settings that only name each of `names`.
pub open spec fn unset_names(names: Seq<Seq<u8>>) -> Seq<SettingView> {
    names.map_values(|name: Seq<u8>| SettingView { name, value: None })
}

/// Settings that only name each of `names`.
pub fn unset_settings(names: &Vec<Vec<u8>>) -> (settings: Vec<Setting>)
    ensures
        settings_view(settings@) == unset_names(byte_strings(names@)),
{
    let mut settings: Vec<Setting> = Vec::new();
    let ghost all = unset_names(byte_strings(names@));
    let mut at: usize = 0;
    while at < names.len()
        invariant
            at <= names@.len(),
            all == unset_names(byte_strings(names@)),
            settings_view(settings@) == all.take(at as int),
        decreases names.len() - at,
    {
        let ghost before = settings_view(settings@);
        settings.push(Setting { name: copy_bytes(names[at].as_slice()), value: None });
        proof {
            assert(settings_view(settings@) =~= before.push(all[at as int]));
            assert(all.take(at + 1) =~= all.take(at as int).push(all[at as int]));
        }
        at = at + 1;
    }
    assert(all.take(at as int) =~= all);
    settings
}

} // verus!

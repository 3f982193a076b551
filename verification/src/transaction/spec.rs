//! Description of one transactional artifact set.

use vstd::prelude::*;
use vstd::string::*;
use vstd::utf8::encode_utf8;
use crate::cache_fs::ArtifactCachePrunePolicy;
use crate::order::{
    bytes_before, bytes_less, in_order, lemma_bytes_order, lemma_ranked_view,
    lemma_sorted_is_in_order, sort_ranked, sorted_by, Ranked,
};
use crate::settings::{
    copy_bytes, copy_settings, copy_strings, in_name_order, settings_view, Setting, SettingView,
};
use crate::text::texts;
use crate::timing::Duration;
use crate::tree::byte_strings;
use crate::wasm_cache::inputs::{ResolvedCargoBuildInputs, ResolvedView};
use crate::wasm_cache::spec::{
    lemma_with_settings_order, set_all, unset_names, unset_settings, with_settings, WasmBuildSpec,
    WasmBuildSpecView,
};

verus! {

/// Built-in validation applied to one transactional artifact output.
#[derive(Clone, Copy, Debug, PartialEq, Eq, PartialOrd, Ord, Structural)]
pub enum ArtifactOutputValidation {
    /// Require a regular file; an empty file is valid.
    RegularFile,
    /// Require a nonempty regular file.
    NonEmptyFile,
}

impl Default for ArtifactOutputValidation {
    fn default() -> (validation: Self)
        ensures
            validation is NonEmptyFile,
    {
        ArtifactOutputValidation::NonEmptyFile
    }
}

/// Word that stands for a validation in keys and manifests.
pub open spec fn validation_token(validation: ArtifactOutputValidation) -> Seq<char> {
    match validation {
        ArtifactOutputValidation::RegularFile => "regular-file"@,
        ArtifactOutputValidation::NonEmptyFile => "nonempty-file"@,
    }
}

impl ArtifactOutputValidation {
    /// Word that stands for the validation in keys and manifests.
    pub fn cache_token(self) -> (token: &'static str)
        ensures
            token@ == validation_token(self),
    {
        match self {
            ArtifactOutputValidation::RegularFile => "regular-file",
            ArtifactOutputValidation::NonEmptyFile => "nonempty-file",
        }
    }
}

/// One declared file or directory under a stable label.
#[derive(Debug)]
pub struct DeclaredPath {
    /// Stable logical label.
    pub label: String,
    /// Where the input or tool lies.
    pub path: Vec<u8>,
}

/// What a declared path says.
pub struct DeclaredView {
    /// Stable logical label.
    pub label: Seq<char>,
    /// Where the input or tool lies.
    pub path: Seq<u8>,
}

impl View for DeclaredPath {
    type V = DeclaredView;

    open spec fn view(&self) -> DeclaredView {
        DeclaredView { label: self.label@, path: self.path@ }
    }
}

/// Views of a list of declared paths.
pub open spec fn declared_views(paths: Seq<DeclaredPath>) -> Seq<DeclaredView> {
    paths.map_values(|path: DeclaredPath| path@)
}

/// Opaque identity bytes under a stable label.
pub struct LabeledIdentity {
    /// Stable logical label.
    pub label: String,
    /// Identity bytes.
    pub value: Vec<u8>,
}

/// What labeled identity bytes say.
pub struct IdentityView {
    /// Stable logical label.
    pub label: Seq<char>,
    /// Identity bytes.
    pub value: Seq<u8>,
}

impl View for LabeledIdentity {
    type V = IdentityView;

    open spec fn view(&self) -> IdentityView {
        IdentityView { label: self.label@, value: self.value@ }
    }
}

/// Views of a list of labeled identities.
pub open spec fn identity_views(identities: Seq<LabeledIdentity>) -> Seq<IdentityView> {
    identities.map_values(|identity: LabeledIdentity| identity@)
}

/// Identities are ranked by their labels.
impl Ranked for LabeledIdentity {
    open spec fn precedes(&self, other: &Self) -> bool {
        bytes_less(encode_utf8(self.label@), encode_utf8(other.label@))
    }

    fn comes_before(&self, other: &Self) -> (before: bool) {
        bytes_before(self.label.as_str().as_bytes(), other.label.as_str().as_bytes())
    }
}

/// One resolved Cargo input set under a stable label.
#[derive(Debug)]
pub struct CargoBuildInputSet {
    /// Stable logical label.
    pub label: String,
    /// Build whose inputs were resolved.
    pub build_spec: WasmBuildSpec,
    /// The resolution.
    pub resolved: ResolvedCargoBuildInputs,
}

/// What a resolved Cargo input set says.
pub struct CargoInputView {
    /// Stable logical label.
    pub label: Seq<char>,
    /// Build whose inputs were resolved.
    pub build_spec: WasmBuildSpecView,
    /// The resolution.
    pub resolved: ResolvedView,
}

impl View for CargoBuildInputSet {
    type V = CargoInputView;

    open spec fn view(&self) -> CargoInputView {
        CargoInputView {
            label: self.label@,
            build_spec: self.build_spec@,
            resolved: self.resolved@,
        }
    }
}

/// Views of a list of resolved Cargo input sets.
pub open spec fn cargo_views(inputs: Seq<CargoBuildInputSet>) -> Seq<CargoInputView> {
    inputs.map_values(|input: CargoBuildInputSet| input@)
}

/// One declared output.
#[derive(Debug)]
pub struct OutputSpec {
    /// Stable logical name.
    pub name: String,
    /// Caller-facing destination.
    pub destination: Vec<u8>,
    /// Validation applied to the output file.
    pub validation: ArtifactOutputValidation,
}

/// What a declared output says.
pub struct OutputView {
    /// Stable logical name.
    pub name: Seq<char>,
    /// Caller-facing destination.
    pub destination: Seq<u8>,
    /// Validation applied to the output file.
    pub validation: ArtifactOutputValidation,
}

impl View for OutputSpec {
    type V = OutputView;

    open spec fn view(&self) -> OutputView {
        OutputView {
            name: self.name@,
            destination: self.destination@,
            validation: self.validation,
        }
    }
}

/// Views of a list of declared outputs.
pub open spec fn output_views(outputs: Seq<OutputSpec>) -> Seq<OutputView> {
    outputs.map_values(|output: OutputSpec| output@)
}

/// Outputs are ranked by their names.
impl Ranked for OutputSpec {
    open spec fn precedes(&self, other: &Self) -> bool {
        bytes_less(encode_utf8(self.name@), encode_utf8(other.name@))
    }

    fn comes_before(&self, other: &Self) -> (before: bool) {
        bytes_before(self.name.as_str().as_bytes(), other.name.as_str().as_bytes())
    }
}

/// Whether an output stands before another in the order of their names.
pub open spec fn output_before() -> spec_fn(OutputView, OutputView) -> bool {
    |left: OutputView, right: OutputView|
        bytes_less(encode_utf8(left.name), encode_utf8(right.name))
}

/// Whether an identity stands before another in the order of their labels.
pub open spec fn identity_before() -> spec_fn(IdentityView, IdentityView) -> bool {
    |left: IdentityView, right: IdentityView|
        bytes_less(encode_utf8(left.label), encode_utf8(right.label))
}

/// Complete caller-owned description of one transactional artifact set.
///
/// Declared inputs and tools must not be located inside the cache root. Output
/// destinations must remain outside it, resolve to distinct paths, and not
/// overlap a declared input or tool.
pub struct ArtifactCacheSpec {
    cache_root: Vec<u8>,
    namespace: String,
    recipe_id: String,
    coordination_scope: String,
    inputs: Vec<DeclaredPath>,
    tools: Vec<DeclaredPath>,
    arguments: Vec<Vec<u8>>,
    environment: Vec<Setting>,
    identities: Vec<LabeledIdentity>,
    cargo_build_inputs: Vec<CargoBuildInputSet>,
    outputs: Vec<OutputSpec>,
    prune_policy: Option<ArtifactCachePrunePolicy>,
    prune_interval: Option<Duration>,
}

/// What a description of an artifact set says.
#[verifier::ext_equal]
pub struct ArtifactCacheSpecView {
    /// Root containing cache data and coordination locks.
    pub cache_root: Seq<u8>,
    /// Content-store namespace.
    pub namespace: Seq<char>,
    /// External recipe identity.
    pub recipe_id: Seq<char>,
    /// Scope that serializes recipes sharing mutable state.
    pub coordination_scope: Seq<char>,
    /// Declared inputs, in the order of their declaration.
    pub inputs: Seq<DeclaredView>,
    /// Declared tools, in the order of their declaration.
    pub tools: Seq<DeclaredView>,
    /// Ordered command arguments.
    pub arguments: Seq<Seq<u8>>,
    /// Environment settings, by name.
    pub environment: Seq<SettingView>,
    /// Identity bytes, in the order of their declaration.
    pub identities: Seq<IdentityView>,
    /// Resolved Cargo input sets, in the order of their declaration.
    pub cargo_build_inputs: Seq<CargoInputView>,
    /// Declared outputs, by name.
    pub outputs: Seq<OutputView>,
    /// Retention policy.
    pub prune_policy: Option<ArtifactCachePrunePolicy>,
    /// Minimum interval between retention attempts.
    pub prune_interval: Option<Duration>,
}

impl View for ArtifactCacheSpec {
    type V = ArtifactCacheSpecView;

    closed spec fn view(&self) -> ArtifactCacheSpecView {
        ArtifactCacheSpecView {
            cache_root: self.cache_root@,
            namespace: self.namespace@,
            recipe_id: self.recipe_id@,
            coordination_scope: self.coordination_scope@,
            inputs: declared_views(self.inputs@),
            tools: declared_views(self.tools@),
            arguments: byte_strings(self.arguments@),
            environment: settings_view(self.environment@),
            identities: identity_views(self.identities@),
            cargo_build_inputs: cargo_views(self.cargo_build_inputs@),
            outputs: output_views(self.outputs@),
            prune_policy: self.prune_policy,
            prune_interval: self.prune_interval,
        }
    }
}

/// One environment variable with its value.
pub struct Variable {
    /// Name of the variable.
    pub name: Vec<u8>,
    /// Its value.
    pub value: Vec<u8>,
}

/// Settings that give each variable its value.
pub open spec fn variable_settings(variables: Seq<Variable>) -> Seq<SettingView> {
    variables.map_values(
        |variable: Variable| SettingView { name: variable.name@, value: Some(variable.value@) },
    )
}

fn settings_of(variables: &Vec<Variable>) -> (settings: Vec<Setting>)
    ensures
        settings_view(settings@) == variable_settings(variables@),
{
    let ghost all = variable_settings(variables@);
    let mut settings: Vec<Setting> = Vec::new();
    let mut at: usize = 0;
    while at < variables.len()
        invariant
            at <= variables@.len(),
            all == variable_settings(variables@),
            settings_view(settings@) == all.take(at as int),
        decreases variables.len() - at,
    {
        let ghost before = settings_view(settings@);
        settings.push(
            Setting {
                name: copy_bytes(variables[at].name.as_slice()),
                value: Some(copy_bytes(variables[at].value.as_slice())),
            },
        );
        proof {
            assert(settings_view(settings@) =~= before.push(all[at as int]));
            assert(all.take(at + 1) =~= all.take(at as int).push(all[at as int]));
        }
        at = at + 1;
    }
    assert(all.take(at as int) =~= all);
    settings
}

fn copy_declared(paths: &Vec<DeclaredPath>) -> (copy: Vec<DeclaredPath>)
    ensures
        declared_views(copy@) == declared_views(paths@),
{
    let ghost all = declared_views(paths@);
    let mut copy: Vec<DeclaredPath> = Vec::new();
    let mut at: usize = 0;
    while at < paths.len()
        invariant
            at <= paths@.len(),
            all == declared_views(paths@),
            declared_views(copy@) == all.take(at as int),
        decreases paths.len() - at,
    {
        let ghost before = declared_views(copy@);
        copy.push(
            DeclaredPath {
                label: paths[at].label.clone(),
                path: copy_bytes(paths[at].path.as_slice()),
            },
        );
        proof {
            assert(declared_views(copy@) =~= before.push(all[at as int]));
            assert(all.take(at + 1) =~= all.take(at as int).push(all[at as int]));
        }
        at = at + 1;
    }
    assert(all.take(at as int) =~= all);
    copy
}

/// Copies of labeled identities.
pub fn copy_identities(identities: &Vec<LabeledIdentity>) -> (copy: Vec<LabeledIdentity>)
    ensures
        identity_views(copy@) == identity_views(identities@),
{
    let ghost all = identity_views(identities@);
    let mut copy: Vec<LabeledIdentity> = Vec::new();
    let mut at: usize = 0;
    while at < identities.len()
        invariant
            at <= identities@.len(),
            all == identity_views(identities@),
            identity_views(copy@) == all.take(at as int),
        decreases identities.len() - at,
    {
        let ghost before = identity_views(copy@);
        copy.push(
            LabeledIdentity {
                label: identities[at].label.clone(),
                value: copy_bytes(identities[at].value.as_slice()),
            },
        );
        proof {
            assert(identity_views(copy@) =~= before.push(all[at as int]));
            assert(all.take(at + 1) =~= all.take(at as int).push(all[at as int]));
        }
        at = at + 1;
    }
    assert(all.take(at as int) =~= all);
    copy
}

fn copy_cargo_inputs(inputs: &Vec<CargoBuildInputSet>) -> (copy: Vec<CargoBuildInputSet>)
    ensures
        cargo_views(copy@) == cargo_views(inputs@),
{
    let ghost all = cargo_views(inputs@);
    let mut copy: Vec<CargoBuildInputSet> = Vec::new();
    let mut at: usize = 0;
    while at < inputs.len()
        invariant
            at <= inputs@.len(),
            all == cargo_views(inputs@),
            cargo_views(copy@) == all.take(at as int),
        decreases inputs.len() - at,
    {
        let ghost before = cargo_views(copy@);
        let input = CargoBuildInputSet {
            label: inputs[at].label.clone(),
            build_spec: inputs[at].build_spec.duplicate(),
            resolved: inputs[at].resolved.duplicate(),
        };
        assert(input@ == inputs@[at as int]@);
        copy.push(input);
        proof {
            assert(cargo_views(copy@) =~= before.push(all[at as int]));
            assert(all.take(at + 1) =~= all.take(at as int).push(all[at as int]));
        }
        at = at + 1;
    }
    assert(all.take(at as int) =~= all);
    copy
}

fn copy_outputs(outputs: &Vec<OutputSpec>) -> (copy: Vec<OutputSpec>)
    ensures
        output_views(copy@) == output_views(outputs@),
{
    let ghost all = output_views(outputs@);
    let mut copy: Vec<OutputSpec> = Vec::new();
    let mut at: usize = 0;
    while at < outputs.len()
        invariant
            at <= outputs@.len(),
            all == output_views(outputs@),
            output_views(copy@) == all.take(at as int),
        decreases outputs.len() - at,
    {
        let ghost before = output_views(copy@);
        copy.push(
            OutputSpec {
                name: outputs[at].name.clone(),
                destination: copy_bytes(outputs[at].destination.as_slice()),
                validation: outputs[at].validation,
            },
        );
        proof {
            assert(output_views(copy@) =~= before.push(all[at as int]));
            assert(all.take(at + 1) =~= all.take(at as int).push(all[at as int]));
        }
        at = at + 1;
    }
    assert(all.take(at as int) =~= all);
    copy
}

impl ArtifactCacheSpec {
    /// Outputs and environment settings stand in the order of their names, however they were
    /// declared.
    #[verifier::type_invariant]
    closed spec fn is_ordered(self) -> bool {
        &&& in_order(output_views(self.outputs@), output_before())
        &&& in_name_order(settings_view(self.environment@))
    }

    /// Describe one external artifact recipe using non-secret stable identifiers.
    ///
    /// The namespace selects an independent content store. `recipe_id` must be
    /// bumped whenever undeclared pipeline semantics change. The default
    /// coordination scope is the namespace.
    pub fn new(cache_root: &[u8], namespace: &str, recipe_id: &str) -> (spec: Self)
        ensures
            spec@ == (ArtifactCacheSpecView {
                cache_root: cache_root@,
                namespace: namespace@,
                recipe_id: recipe_id@,
                coordination_scope: namespace@,
                inputs: seq![],
                tools: seq![],
                arguments: seq![],
                environment: seq![],
                identities: seq![],
                cargo_build_inputs: seq![],
                outputs: seq![],
                prune_policy: None,
                prune_interval: None,
            }),
    {
        let spec = ArtifactCacheSpec {
            cache_root: copy_bytes(cache_root),
            namespace: namespace.to_owned(),
            recipe_id: recipe_id.to_owned(),
            coordination_scope: namespace.to_owned(),
            inputs: Vec::new(),
            tools: Vec::new(),
            arguments: Vec::new(),
            environment: Vec::new(),
            identities: Vec::new(),
            cargo_build_inputs: Vec::new(),
            outputs: Vec::new(),
            prune_policy: None,
            prune_interval: None,
        };
        proof {
            assert(declared_views(spec.inputs@) =~= seq![]);
            assert(declared_views(spec.tools@) =~= seq![]);
            assert(byte_strings(spec.arguments@) =~= seq![]);
            assert(settings_view(spec.environment@) =~= seq![]);
            assert(identity_views(spec.identities@) =~= seq![]);
            assert(cargo_views(spec.cargo_build_inputs@) =~= seq![]);
            assert(output_views(spec.outputs@) =~= seq![]);
        }
        spec
    }

    /// A description that says the same.
    pub fn duplicate(&self) -> (copy: Self)
        ensures
            copy@ == self@,
    {
        proof {
            use_type_invariant(self);
        }
        ArtifactCacheSpec {
            cache_root: copy_bytes(self.cache_root.as_slice()),
            namespace: self.namespace.clone(),
            recipe_id: self.recipe_id.clone(),
            coordination_scope: self.coordination_scope.clone(),
            inputs: copy_declared(&self.inputs),
            tools: copy_declared(&self.tools),
            arguments: copy_strings(&self.arguments),
            environment: copy_settings(&self.environment),
            identities: copy_identities(&self.identities),
            cargo_build_inputs: copy_cargo_inputs(&self.cargo_build_inputs),
            outputs: copy_outputs(&self.outputs),
            prune_policy: self.prune_policy,
            prune_interval: self.prune_interval,
        }
    }

    /// Serialize recipes that share caller-owned mutable external build state.
    pub fn with_coordination_scope(self, coordination_scope: &str) -> (spec: Self)
        ensures
            spec@ == (ArtifactCacheSpecView { coordination_scope: coordination_scope@, ..self@ }),
    {
        proof {
            use_type_invariant(&self);
        }
        ArtifactCacheSpec { coordination_scope: coordination_scope.to_owned(), ..self }
    }

    /// Add one exact input file or directory outside the cache root under a stable label.
    pub fn with_input(self, label: &str, path: &[u8]) -> (spec: Self)
        ensures
            spec@ == (ArtifactCacheSpecView {
                inputs: self@.inputs.push(DeclaredView { label: label@, path: path@ }),
                ..self@
            }),
    {
        proof {
            use_type_invariant(&self);
        }
        let mut inputs = self.inputs;
        let ghost before = declared_views(inputs@);
        inputs.push(DeclaredPath { label: label.to_owned(), path: copy_bytes(path) });
        assert(declared_views(inputs@) =~= before.push(
            DeclaredView { label: label@, path: path@ },
        ));
        ArtifactCacheSpec { inputs, ..self }
    }

    /// Add one exact executable or tool path outside the cache root under a stable label.
    pub fn with_tool(self, label: &str, path: &[u8]) -> (spec: Self)
        ensures
            spec@ == (ArtifactCacheSpecView {
                tools: self@.tools.push(DeclaredView { label: label@, path: path@ }),
                ..self@
            }),
    {
        proof {
            use_type_invariant(&self);
        }
        let mut tools = self.tools;
        let ghost before = declared_views(tools@);
        tools.push(DeclaredPath { label: label.to_owned(), path: copy_bytes(path) });
        assert(declared_views(tools@) =~= before.push(DeclaredView { label: label@, path: path@ }));
        ArtifactCacheSpec { tools, ..self }
    }

    /// Set ordered command arguments that contribute to the content key.
    pub fn with_arguments(self, arguments: Vec<Vec<u8>>) -> (spec: Self)
        ensures
            spec@ == (ArtifactCacheSpecView { arguments: byte_strings(arguments@), ..self@ }),
    {
        proof {
            use_type_invariant(&self);
        }
        ArtifactCacheSpec { arguments, ..self }
    }

    /// Set environment values that contribute to the content key.
    pub fn with_environment(self, environment: &Vec<Variable>) -> (spec: Self)
        ensures
            spec@ == (ArtifactCacheSpecView {
                environment: with_settings(
                    self@.environment,
                    variable_settings(environment@),
                ),
                ..self@
            }),
    {
        proof {
            use_type_invariant(&self);
        }
        let mut settings = self.environment;
        let added = settings_of(environment);
        proof {
            lemma_with_settings_order(settings_view(settings@), settings_view(added@));
        }
        set_all(&mut settings, &added);
        ArtifactCacheSpec { environment: settings, ..self }
    }

    /// Record environment names whose unset state contributes to the content key.
    pub fn with_unset_environment(self, names: &Vec<Vec<u8>>) -> (spec: Self)
        ensures
            spec@ == (ArtifactCacheSpecView {
                environment: with_settings(
                    self@.environment,
                    unset_names(byte_strings(names@)),
                ),
                ..self@
            }),
    {
        proof {
            use_type_invariant(&self);
        }
        let mut settings = self.environment;
        let added = unset_settings(names);
        proof {
            lemma_with_settings_order(settings_view(settings@), settings_view(added@));
        }
        set_all(&mut settings, &added);
        ArtifactCacheSpec { environment: settings, ..self }
    }

    /// Add opaque non-secret identity bytes under a stable logical label.
    pub fn with_identity_bytes(self, label: &str, value: &[u8]) -> (spec: Self)
        ensures
            spec@ == (ArtifactCacheSpecView {
                identities: self@.identities.push(IdentityView { label: label@, value: value@ }),
                ..self@
            }),
    {
        proof {
            use_type_invariant(&self);
        }
        let mut identities = self.identities;
        let ghost before = identity_views(identities@);
        identities.push(LabeledIdentity { label: label.to_owned(), value: copy_bytes(value) });
        assert(identity_views(identities@) =~= before.push(
            IdentityView { label: label@, value: value@ },
        ));
        ArtifactCacheSpec { identities, ..self }
    }

    /// Add one exact Cargo input snapshot as transactional cache identity and guard.
    ///
    /// The resolved fingerprint keys toolchain, arguments, environment and the
    /// dependency closure. Its source and configuration paths are rehashed
    /// during preparation, cache-hit materialization and transaction commit.
    pub fn with_cargo_build_inputs(
        self,
        label: &str,
        build_spec: &WasmBuildSpec,
        resolved: &ResolvedCargoBuildInputs,
    ) -> (spec: Self)
        ensures
            spec@ == (ArtifactCacheSpecView {
                cargo_build_inputs: self@.cargo_build_inputs.push(
                    CargoInputView {
                        label: label@,
                        build_spec: build_spec@,
                        resolved: resolved@,
                    },
                ),
                ..self@
            }),
    {
        proof {
            use_type_invariant(&self);
        }
        let mut cargo_build_inputs = self.cargo_build_inputs;
        let ghost before = cargo_views(cargo_build_inputs@);
        let input = CargoBuildInputSet {
            label: label.to_owned(),
            build_spec: build_spec.duplicate(),
            resolved: resolved.duplicate(),
        };
        cargo_build_inputs.push(input);
        assert(cargo_views(cargo_build_inputs@) =~= before.push(
            CargoInputView { label: label@, build_spec: build_spec@, resolved: resolved@ },
        ));
        ArtifactCacheSpec { cargo_build_inputs, ..self }
    }

    /// Declare one nonempty regular-file output and its nonoverlapping public destination.
    pub fn with_output(self, name: &str, destination: &[u8]) -> (spec: Self)
        ensures
            spec@ == (ArtifactCacheSpecView {
                outputs: sorted_by(
                    self@.outputs.push(
                        OutputView {
                            name: name@,
                            destination: destination@,
                            validation: ArtifactOutputValidation::NonEmptyFile,
                        },
                    ),
                    output_before(),
                ),
                ..self@
            }),
    {
        self.with_output_validation(name, destination, ArtifactOutputValidation::NonEmptyFile)
    }

    /// Declare one output, nonoverlapping public destination, and validation policy.
    ///
    /// Outputs are kept in the order of their names.
    pub fn with_output_validation(
        self,
        name: &str,
        destination: &[u8],
        validation: ArtifactOutputValidation,
    ) -> (spec: Self)
        ensures
            spec@ == (ArtifactCacheSpecView {
                outputs: sorted_by(
                    self@.outputs.push(
                        OutputView { name: name@, destination: destination@, validation },
                    ),
                    output_before(),
                ),
                ..self@
            }),
    {
        proof {
            use_type_invariant(&self);
        }
        let mut outputs = self.outputs;
        let ghost before = output_views(outputs@);
        outputs.push(
            OutputSpec { name: name.to_owned(), destination: copy_bytes(destination), validation },
        );
        proof {
            assert(output_views(outputs@) =~= before.push(
                OutputView { name: name@, destination: destination@, validation },
            ));
            lemma_ranked_view(outputs@, |output: OutputSpec| output@, output_before());
            lemma_bytes_order(|output: OutputView| encode_utf8(output.name), output_before());
            lemma_sorted_is_in_order(output_views(outputs@), output_before());
        }
        sort_ranked(&mut outputs);
        ArtifactCacheSpec { outputs, ..self }
    }

    /// Apply best-effort retention while protecting the acquired entry.
    pub fn with_prune_policy(self, policy: ArtifactCachePrunePolicy) -> (spec: Self)
        ensures
            spec@ == (ArtifactCacheSpecView {
                prune_policy: Some(policy),
                prune_interval: None,
                ..self@
            }),
    {
        proof {
            use_type_invariant(&self);
        }
        ArtifactCacheSpec { prune_policy: Some(policy), prune_interval: None, ..self }
    }

    /// Apply retention at most once per `minimum_interval` for this namespace.
    ///
    /// The interval applies to attempted maintenance, including a nonfatal
    /// failed attempt. A zero interval is equivalent to
    /// [`Self::with_prune_policy`].
    pub fn with_prune_policy_at_most_every(
        self,
        policy: ArtifactCachePrunePolicy,
        minimum_interval: Duration,
    ) -> (spec: Self)
        ensures
            spec@ == (ArtifactCacheSpecView {
                prune_policy: Some(policy),
                prune_interval: Some(minimum_interval),
                ..self@
            }),
    {
        proof {
            use_type_invariant(&self);
        }
        ArtifactCacheSpec {
            prune_policy: Some(policy),
            prune_interval: Some(minimum_interval),
            ..self
        }
    }

    /// Caller-selected root containing cache data and coordination locks.
    pub fn cache_root(&self) -> (path: &[u8])
        ensures
            path@ == self@.cache_root,
    {
        self.cache_root.as_slice()
    }

    /// Stable caller-owned content-store namespace.
    pub fn namespace(&self) -> (namespace: &str)
        ensures
            namespace@ == self@.namespace,
    {
        self.namespace.as_str()
    }

    /// Stable caller-owned external recipe identity.
    pub fn recipe_id(&self) -> (recipe: &str)
        ensures
            recipe@ == self@.recipe_id,
    {
        self.recipe_id.as_str()
    }

    /// Scope that serializes recipes sharing mutable state.
    pub fn coordination_scope(&self) -> (scope: &str)
        ensures
            scope@ == self@.coordination_scope,
    {
        self.coordination_scope.as_str()
    }

    /// Declared inputs.
    pub fn inputs(&self) -> (inputs: &Vec<DeclaredPath>)
        ensures
            declared_views(inputs@) == self@.inputs,
    {
        &self.inputs
    }

    /// Declared tools.
    pub fn tools(&self) -> (tools: &Vec<DeclaredPath>)
        ensures
            declared_views(tools@) == self@.tools,
    {
        &self.tools
    }

    /// Ordered command arguments.
    pub fn arguments(&self) -> (arguments: &Vec<Vec<u8>>)
        ensures
            byte_strings(arguments@) == self@.arguments,
    {
        &self.arguments
    }

    /// Environment settings, by name.
    pub fn environment(&self) -> (settings: &Vec<Setting>)
        ensures
            settings_view(settings@) == self@.environment,
            in_name_order(self@.environment),
    {
        proof {
            use_type_invariant(self);
        }
        &self.environment
    }

    /// Identity bytes.
    pub fn identities(&self) -> (identities: &Vec<LabeledIdentity>)
        ensures
            identity_views(identities@) == self@.identities,
    {
        &self.identities
    }

    /// Resolved Cargo input sets.
    pub fn cargo_build_inputs(&self) -> (inputs: &Vec<CargoBuildInputSet>)
        ensures
            cargo_views(inputs@) == self@.cargo_build_inputs,
    {
        &self.cargo_build_inputs
    }

    /// Declared outputs, by name.
    pub fn outputs(&self) -> (outputs: &Vec<OutputSpec>)
        ensures
            output_views(outputs@) == self@.outputs,
            in_order(self@.outputs, output_before()),
    {
        proof {
            use_type_invariant(self);
        }
        &self.outputs
    }

    /// Retention policy, when configured.
    pub fn prune_policy(&self) -> (policy: Option<ArtifactCachePrunePolicy>)
        ensures
            policy == self@.prune_policy,
    {
        self.prune_policy
    }

    /// Minimum interval between retention attempts, when scheduled.
    pub fn prune_interval(&self) -> (interval: Option<Duration>)
        ensures
            interval == self@.prune_interval,
    {
        self.prune_interval
    }
}

/// What may be shown of a description: everything but the values of arguments, environment
/// settings and identities.
#[derive(Debug)]
pub struct ArtifactCacheSpecSummary {
    /// Root containing cache data and coordination locks.
    pub cache_root: Vec<u8>,
    /// Content-store namespace.
    pub namespace: String,
    /// External recipe identity.
    pub recipe_id: String,
    /// Scope that serializes recipes sharing mutable state.
    pub coordination_scope: String,
    /// Declared inputs.
    pub inputs: Vec<DeclaredPath>,
    /// Declared tools.
    pub tools: Vec<DeclaredPath>,
    /// Number of command arguments.
    pub argument_count: usize,
    /// Names of environment settings.
    pub environment_names: Vec<Vec<u8>>,
    /// Labels of identities.
    pub identity_labels: Vec<String>,
    /// Labels of resolved Cargo input sets.
    pub cargo_build_input_labels: Vec<String>,
    /// Declared outputs.
    pub outputs: Vec<OutputSpec>,
    /// Retention policy.
    pub prune_policy: Option<ArtifactCachePrunePolicy>,
    /// Minimum interval between retention attempts.
    pub prune_interval: Option<Duration>,
}

/// What a summary says.
pub struct SummaryView {
    /// Root containing cache data and coordination locks.
    pub cache_root: Seq<u8>,
    /// Content-store namespace.
    pub namespace: Seq<char>,
    /// External recipe identity.
    pub recipe_id: Seq<char>,
    /// Scope that serializes recipes sharing mutable state.
    pub coordination_scope: Seq<char>,
    /// Declared inputs.
    pub inputs: Seq<DeclaredView>,
    /// Declared tools.
    pub tools: Seq<DeclaredView>,
    /// Number of command arguments.
    pub argument_count: nat,
    /// Names of environment settings.
    pub environment_names: Seq<Seq<u8>>,
    /// Labels of identities.
    pub identity_labels: Seq<Seq<char>>,
    /// Labels of resolved Cargo input sets.
    pub cargo_build_input_labels: Seq<Seq<char>>,
    /// Declared outputs.
    pub outputs: Seq<OutputView>,
    /// Retention policy.
    pub prune_policy: Option<ArtifactCachePrunePolicy>,
    /// Minimum interval between retention attempts.
    pub prune_interval: Option<Duration>,
}

impl View for ArtifactCacheSpecSummary {
    type V = SummaryView;

    open spec fn view(&self) -> SummaryView {
        SummaryView {
            cache_root: self.cache_root@,
            namespace: self.namespace@,
            recipe_id: self.recipe_id@,
            coordination_scope: self.coordination_scope@,
            inputs: declared_views(self.inputs@),
            tools: declared_views(self.tools@),
            argument_count: self.argument_count as nat,
            environment_names: byte_strings(self.environment_names@),
            identity_labels: texts(self.identity_labels@),
            cargo_build_input_labels: texts(self.cargo_build_input_labels@),
            outputs: output_views(self.outputs@),
            prune_policy: self.prune_policy,
            prune_interval: self.prune_interval,
        }
    }
}

/// What may be shown of a description.
pub open spec fn shown(spec: ArtifactCacheSpecView) -> SummaryView {
    SummaryView {
        cache_root: spec.cache_root,
        namespace: spec.namespace,
        recipe_id: spec.recipe_id,
        coordination_scope: spec.coordination_scope,
        inputs: spec.inputs,
        tools: spec.tools,
        argument_count: spec.arguments.len(),
        environment_names: spec.environment.map_values(|setting: SettingView| setting.name),
        identity_labels: spec.identities.map_values(|identity: IdentityView| identity.label),
        cargo_build_input_labels: spec.cargo_build_inputs.map_values(
            |input: CargoInputView| input.label,
        ),
        outputs: spec.outputs,
        prune_policy: spec.prune_policy,
        prune_interval: spec.prune_interval,
    }
}

fn names_of(settings: &Vec<Setting>) -> (names: Vec<Vec<u8>>)
    ensures
        byte_strings(names@) == settings_view(settings@).map_values(
            |setting: SettingView| setting.name,
        ),
{
    let ghost all = settings_view(settings@).map_values(|setting: SettingView| setting.name);
    let mut names: Vec<Vec<u8>> = Vec::new();
    let mut at: usize = 0;
    while at < settings.len()
        invariant
            at <= settings@.len(),
            all == settings_view(settings@).map_values(|setting: SettingView| setting.name),
            byte_strings(names@) == all.take(at as int),
        decreases settings.len() - at,
    {
        let ghost before = byte_strings(names@);
        names.push(copy_bytes(settings[at].name.as_slice()));
        proof {
            assert(byte_strings(names@) =~= before.push(all[at as int]));
            assert(all.take(at + 1) =~= all.take(at as int).push(all[at as int]));
        }
        at = at + 1;
    }
    assert(all.take(at as int) =~= all);
    names
}

fn identity_labels(identities: &Vec<LabeledIdentity>) -> (labels: Vec<String>)
    ensures
        texts(labels@) == identity_views(identities@).map_values(
            |identity: IdentityView| identity.label,
        ),
{
    let ghost all = identity_views(identities@).map_values(|identity: IdentityView| identity.label);
    let mut labels: Vec<String> = Vec::new();
    let mut at: usize = 0;
    while at < identities.len()
        invariant
            at <= identities@.len(),
            all == identity_views(identities@).map_values(
                |identity: IdentityView| identity.label,
            ),
            texts(labels@) == all.take(at as int),
        decreases identities.len() - at,
    {
        let ghost before = texts(labels@);
        labels.push(identities[at].label.clone());
        proof {
            assert(texts(labels@) =~= before.push(all[at as int]));
            assert(all.take(at + 1) =~= all.take(at as int).push(all[at as int]));
        }
        at = at + 1;
    }
    assert(all.take(at as int) =~= all);
    labels
}

fn cargo_labels(inputs: &Vec<CargoBuildInputSet>) -> (labels: Vec<String>)
    ensures
        texts(labels@) == cargo_views(inputs@).map_values(|input: CargoInputView| input.label),
{
    let ghost all = cargo_views(inputs@).map_values(|input: CargoInputView| input.label);
    let mut labels: Vec<String> = Vec::new();
    let mut at: usize = 0;
    while at < inputs.len()
        invariant
            at <= inputs@.len(),
            all == cargo_views(inputs@).map_values(|input: CargoInputView| input.label),
            texts(labels@) == all.take(at as int),
        decreases inputs.len() - at,
    {
        let ghost before = texts(labels@);
        labels.push(inputs[at].label.clone());
        proof {
            assert(texts(labels@) =~= before.push(all[at as int]));
            assert(all.take(at + 1) =~= all.take(at as int).push(all[at as int]));
        }
        at = at + 1;
    }
    assert(all.take(at as int) =~= all);
    labels
}

impl ArtifactCacheSpec {
    /// What may be shown of the description.
    pub fn summary(&self) -> (summary: ArtifactCacheSpecSummary)
        ensures
            summary@ == shown(self@),
    {
        ArtifactCacheSpecSummary {
            cache_root: copy_bytes(self.cache_root.as_slice()),
            namespace: self.namespace.clone(),
            recipe_id: self.recipe_id.clone(),
            coordination_scope: self.coordination_scope.clone(),
            inputs: copy_declared(&self.inputs),
            tools: copy_declared(&self.tools),
            argument_count: self.arguments.len(),
            environment_names: names_of(&self.environment),
            identity_labels: identity_labels(&self.identities),
            cargo_build_input_labels: cargo_labels(&self.cargo_build_inputs),
            outputs: copy_outputs(&self.outputs),
            prune_policy: self.prune_policy,
            prune_interval: self.prune_interval,
        }
    }
}

/// Descriptions that differ only in the values of arguments, environment settings and identities
/// are shown alike.
pub proof fn lemma_values_are_not_shown(left: ArtifactCacheSpecView, right: ArtifactCacheSpecView)
    requires
        left.arguments.len() == right.arguments.len(),
        left.environment.len() == right.environment.len(),
        forall|i: int|
            0 <= i < left.environment.len() ==> (#[trigger] left.environment[i]).name
                == right.environment[i].name,
        left.identities.len() == right.identities.len(),
        forall|i: int|
            0 <= i < left.identities.len() ==> (#[trigger] left.identities[i]).label
                == right.identities[i].label,
        right == (ArtifactCacheSpecView {
            arguments: right.arguments,
            environment: right.environment,
            identities: right.identities,
            ..left
        }),
    ensures
        shown(left) == shown(right),
{
    assert(shown(left).environment_names =~= shown(right).environment_names);
    assert(shown(left).identity_labels =~= shown(right).identity_labels);
}

} // verus!

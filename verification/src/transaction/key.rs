//! Content key of an artifact set.

use vstd::prelude::*;
use vstd::string::*;
use vstd::utf8::encode_utf8;
use super::error::ArtifactCacheError;
use super::spec::{
    cargo_views, copy_identities, declared_views, identity_before, identity_views, output_views,
    validation_token, ArtifactCacheSpec, ArtifactCacheSpecView, CargoInputView, DeclaredPath,
    DeclaredView, IdentityView, LabeledIdentity, OutputSpec, OutputView,
};
use crate::digest::{digest_of, field, Field, InputDigest, InputHasher};
use crate::order::{bytes_before, bytes_less, lemma_ranked_view, sort_ranked, sorted_by, Ranked};
use crate::paths::{join, joined};
use crate::settings::copy_bytes;
use crate::tree::{
    byte_strings, labeled_views, walk_start, LabeledPath, LabeledView, PathDigestWalk, Visit,
    WalkState,
};
use crate::wasm_cache::error::WasmBuildError;
use crate::wasm_cache::identity::{environment_fields, hash_environment};

verus! {

/// Version tag of content keys and manifests.
pub const ARTIFACT_CACHE_FORMAT: &'static str = "ic-testkit-artifact-set-v1";

/// Domain under which declared inputs and tools are hashed.
pub const DECLARED_INPUTS_DOMAIN: &'static str = "artifact-set-inputs-v1";

/// Domain under which declared inputs and Cargo input sets are hashed together.
pub const CARGO_INPUTS_DOMAIN: &'static str = "artifact-set-inputs-with-cargo-v1";

/// A declared path under the label that is hashed for it.
pub open spec fn labeled_declared(kind: Seq<char>, declared: DeclaredView) -> LabeledView {
    LabeledView {
        label: joined(encode_utf8(kind), encode_utf8(declared.label)),
        path: declared.path,
    }
}

/// Declared paths under the labels that are hashed for them.
pub open spec fn labeled_all(kind: Seq<char>, declared: Seq<DeclaredView>) -> Seq<LabeledView> {
    declared.map_values(|path: DeclaredView| labeled_declared(kind, path))
}

/// The declared inputs, then the declared tools, under the labels that are hashed for them.
pub open spec fn declared_of(spec: ArtifactCacheSpecView) -> Seq<LabeledView> {
    labeled_all("input"@, spec.inputs) + labeled_all("tool"@, spec.tools)
}

/// The state in which the walk over the declared inputs and tools starts.
pub open spec fn declared_start(spec: ArtifactCacheSpecView) -> WalkState {
    walk_start(DECLARED_INPUTS_DOMAIN@, declared_of(spec))
}

fn append_labeled(labeled: &mut Vec<LabeledPath>, kind: &str, declared: &Vec<DeclaredPath>)
    ensures
        labeled_views(final(labeled)@) == labeled_views(old(labeled)@) + labeled_all(
            kind@,
            declared_views(declared@),
        ),
{
    let ghost start = labeled_views(labeled@);
    let ghost all = labeled_all(kind@, declared_views(declared@));
    let mut at: usize = 0;
    assert(start + all.take(0) =~= start);
    while at < declared.len()
        invariant
            at <= declared@.len(),
            all == labeled_all(kind@, declared_views(declared@)),
            labeled_views(labeled@) == start + all.take(at as int),
        decreases declared.len() - at,
    {
        let ghost before = labeled_views(labeled@);
        labeled.push(
            LabeledPath {
                label: join(kind.as_bytes(), declared[at].label.as_str().as_bytes()),
                path: copy_bytes(declared[at].path.as_slice()),
            },
        );
        proof {
            assert(labeled_views(labeled@) =~= before.push(all[at as int]));
            assert(all.take(at + 1) =~= all.take(at as int).push(all[at as int]));
            assert(labeled_views(labeled@) =~= start + all.take(at + 1));
        }
        at = at + 1;
    }
    assert(all.take(at as int) =~= all);
}

/// The declared inputs, then the declared tools, under the labels that are hashed for them.
///
/// They are hashed under [`DECLARED_INPUTS_DOMAIN`], without the cache root.
pub fn declared_paths(spec: &ArtifactCacheSpec) -> (labeled: Vec<LabeledPath>)
    ensures
        labeled_views(labeled@) == declared_of(spec@),
{
    let mut labeled: Vec<LabeledPath> = Vec::new();
    append_labeled(&mut labeled, "input", spec.inputs());
    append_labeled(&mut labeled, "tool", spec.tools());
    assert(labeled_views(labeled@) =~= declared_of(spec@));
    labeled
}

/// Start to hash the declared inputs and tools, without what lies within the `excluded` roots.
pub fn declared_walk(spec: &ArtifactCacheSpec, excluded: Vec<Vec<u8>>) -> (walk: PathDigestWalk)
    ensures
        walk.wf(),
        walk.is_between(),
        walk.state() == declared_start(spec@),
        walk.start() == walk.state(),
        walk.visits() == Seq::<Visit>::empty(),
        walk.visited() == Seq::<Seq<u8>>::empty(),
        walk.excluded() == byte_strings(excluded@),
{
    PathDigestWalk::new(DECLARED_INPUTS_DOMAIN, declared_paths(spec), excluded)
}

/// What the input digest takes in of one resolved Cargo input set, and the digest that guards it.
///
/// The semantic identity of the input set becomes part of the key. Its raw
/// inputs only have to be what they were when they were resolved.
#[derive(Debug)]
pub struct CargoRow {
    /// Logical label.
    pub label: String,
    /// Position among the input sets of the description.
    pub index: usize,
    /// Fingerprint of the resolution.
    pub fingerprint: InputDigest,
    /// Semantic digest of the resolution.
    pub input_digest: InputDigest,
    /// Conservative digest of the resolution.
    pub validation_digest: InputDigest,
}

/// What a row says.
pub struct CargoRowView {
    /// Logical label.
    pub label: Seq<char>,
    /// Position among the input sets of the description.
    pub index: int,
    /// Fingerprint of the resolution.
    pub fingerprint: Seq<u8>,
    /// Semantic digest of the resolution.
    pub input_digest: Seq<u8>,
    /// Conservative digest of the resolution.
    pub validation_digest: Seq<u8>,
}

impl View for CargoRow {
    type V = CargoRowView;

    open spec fn view(&self) -> CargoRowView {
        CargoRowView {
            label: self.label@,
            index: self.index as int,
            fingerprint: self.fingerprint@,
            input_digest: self.input_digest@,
            validation_digest: self.validation_digest@,
        }
    }
}

/// Rows are ranked by their labels.
impl Ranked for CargoRow {
    open spec fn precedes(&self, other: &Self) -> bool {
        bytes_less(encode_utf8(self.label@), encode_utf8(other.label@))
    }

    fn comes_before(&self, other: &Self) -> (before: bool) {
        bytes_before(self.label.as_str().as_bytes(), other.label.as_str().as_bytes())
    }
}

/// Views of a list of rows.
pub open spec fn row_views(rows: Seq<CargoRow>) -> Seq<CargoRowView> {
    rows.map_values(|row: CargoRow| row@)
}

/// Whether a row stands before another in the order of their labels.
pub open spec fn row_before() -> spec_fn(CargoRowView, CargoRowView) -> bool {
    |left: CargoRowView, right: CargoRowView|
        bytes_less(encode_utf8(left.label), encode_utf8(right.label))
}

/// One row for each resolved Cargo input set.
pub open spec fn rows_of(inputs: Seq<CargoInputView>) -> Seq<CargoRowView> {
    Seq::new(
        inputs.len(),
        |i: int|
            CargoRowView {
                label: inputs[i].label,
                index: i,
                fingerprint: inputs[i].resolved.fingerprint,
                input_digest: inputs[i].resolved.input_digest,
                validation_digest: inputs[i].resolved.validation_digest,
            },
    )
}

/// The rows in the order of their labels.
pub open spec fn sorted_rows(inputs: Seq<CargoInputView>) -> Seq<CargoRowView> {
    sorted_by(rows_of(inputs), row_before())
}

/// Fields that stand for one row.
pub open spec fn row_fields(row: CargoRowView) -> Seq<Field> {
    seq![
        field("cargo-input-label"@, encode_utf8(row.label)),
        field("cargo-build-fingerprint"@, row.fingerprint),
        field("cargo-input-digest"@, row.input_digest),
    ]
}

/// Fields that stand for a list of rows.
pub open spec fn rows_fields(rows: Seq<CargoRowView>) -> Seq<Field>
    decreases rows.len(),
{
    if rows.len() == 0 {
        seq![]
    } else {
        rows_fields(rows.drop_last()) + row_fields(rows.last())
    }
}

/// Digest of everything that an artifact set is built from.
///
/// Without Cargo input sets this is the digest of the declared paths alone.
pub open spec fn combined_input_digest(
    inputs: Seq<CargoInputView>,
    declared_digest: Seq<u8>,
) -> Seq<u8> {
    if inputs.len() == 0 {
        declared_digest
    } else {
        digest_of(
            CARGO_INPUTS_DOMAIN@,
            seq![field("declared-input-digest"@, declared_digest)] + rows_fields(
                sorted_rows(inputs),
            ),
        )
    }
}

/// Fields that stand for command arguments.
pub open spec fn command_fields(arguments: Seq<Seq<u8>>) -> Seq<Field> {
    arguments.map_values(|argument: Seq<u8>| field("argument"@, argument))
}

/// Fields that stand for identity bytes.
pub open spec fn identity_fields(identities: Seq<IdentityView>) -> Seq<Field>
    decreases identities.len(),
{
    if identities.len() == 0 {
        seq![]
    } else {
        identity_fields(identities.drop_last()) + seq![
            field("identity-label"@, encode_utf8(identities.last().label)),
            field("identity-value"@, identities.last().value),
        ]
    }
}

/// Fields that stand for declared outputs.
pub open spec fn output_fields(outputs: Seq<OutputView>) -> Seq<Field>
    decreases outputs.len(),
{
    if outputs.len() == 0 {
        seq![]
    } else {
        output_fields(outputs.drop_last()) + seq![
            field("output-name"@, encode_utf8(outputs.last().name)),
            field("output-validation"@, encode_utf8(validation_token(outputs.last().validation))),
        ]
    }
}

/// Everything that selects an immutable cache entry.
pub open spec fn key_fields(spec: ArtifactCacheSpecView, input_digest: Seq<u8>) -> Seq<Field> {
    seq![
        field("namespace"@, encode_utf8(spec.namespace)),
        field("recipe-id"@, encode_utf8(spec.recipe_id)),
        field("input-digest"@, input_digest),
    ] + command_fields(spec.arguments) + environment_fields(
        spec.environment,
        "environment-name"@,
    ) + identity_fields(sorted_by(spec.identities, identity_before())) + output_fields(spec.outputs)
}

/// The content key of an artifact set with the given input digest.
pub open spec fn content_key(spec: ArtifactCacheSpecView, input_digest: Seq<u8>) -> Seq<u8> {
    digest_of(ARTIFACT_CACHE_FORMAT@, key_fields(spec, input_digest))
}

/// Key of an artifact set and digest of what it is built from.
#[derive(Clone, Copy, Debug)]
pub struct ResolvedKey {
    /// Content key.
    pub key: InputDigest,
    /// Digest of everything that the artifact set is built from.
    pub input_digest: InputDigest,
}

/// Whether a key belongs to a description and a digest of its declared paths.
pub open spec fn is_key_of(
    resolved: ResolvedKey,
    spec: ArtifactCacheSpecView,
    declared_digest: Seq<u8>,
) -> bool {
    &&& resolved.input_digest@ == combined_input_digest(spec.cargo_build_inputs, declared_digest)
    &&& resolved.key@ == content_key(spec, resolved.input_digest@)
}

fn hash_identities(hasher: &mut InputHasher, identities: &Vec<LabeledIdentity>)
    requires
        old(hasher).wf(),
        !old(hasher).in_file(),
    ensures
        final(hasher).wf(),
        !final(hasher).in_file(),
        final(hasher)@ == old(hasher)@ + identity_fields(identity_views(identities@)),
{
    let ghost start = hasher@;
    let ghost all = identity_views(identities@);
    let mut at: usize = 0;
    assert(start + identity_fields(all.take(0)) =~= start);
    while at < identities.len()
        invariant
            at <= identities@.len(),
            all == identity_views(identities@),
            hasher.wf(),
            !hasher.in_file(),
            hasher@ == start + identity_fields(all.take(at as int)),
        decreases identities.len() - at,
    {
        hasher.field("identity-label", identities[at].label.as_str().as_bytes());
        hasher.field("identity-value", identities[at].value.as_slice());
        proof {
            assert(all.take(at + 1).drop_last() =~= all.take(at as int));
            assert(all.take(at + 1).last() == identities@[at as int]@);
            assert(hasher@ =~= start + identity_fields(all.take(at + 1)));
        }
        at = at + 1;
    }
    assert(all.take(at as int) =~= all);
}

fn hash_outputs(hasher: &mut InputHasher, outputs: &Vec<OutputSpec>)
    requires
        old(hasher).wf(),
        !old(hasher).in_file(),
    ensures
        final(hasher).wf(),
        !final(hasher).in_file(),
        final(hasher)@ == old(hasher)@ + output_fields(output_views(outputs@)),
{
    let ghost start = hasher@;
    let ghost all = output_views(outputs@);
    let mut at: usize = 0;
    assert(start + output_fields(all.take(0)) =~= start);
    while at < outputs.len()
        invariant
            at <= outputs@.len(),
            all == output_views(outputs@),
            hasher.wf(),
            !hasher.in_file(),
            hasher@ == start + output_fields(all.take(at as int)),
        decreases outputs.len() - at,
    {
        hasher.field("output-name", outputs[at].name.as_str().as_bytes());
        hasher.field("output-validation", outputs[at].validation.cache_token().as_bytes());
        proof {
            assert(all.take(at + 1).drop_last() =~= all.take(at as int));
            assert(all.take(at + 1).last() == outputs@[at as int]@);
            assert(hasher@ =~= start + output_fields(all.take(at + 1)));
        }
        at = at + 1;
    }
    assert(all.take(at as int) =~= all);
}

/// The content key of an artifact set with the given input digest.
pub fn resolve_content_key(spec: &ArtifactCacheSpec, input_digest: InputDigest) -> (key: InputDigest)
    ensures
        key@ == content_key(spec@, input_digest@),
{
    let mut hasher = InputHasher::new(ARTIFACT_CACHE_FORMAT);
    let ghost domain = hasher@;
    hasher.field("namespace", spec.namespace().as_bytes());
    hasher.field("recipe-id", spec.recipe_id().as_bytes());
    hasher.field("input-digest", input_digest.as_bytes().as_slice());
    let ghost start = hasher@;
    let arguments = spec.arguments();
    let ghost given = byte_strings(arguments@);
    let mut at: usize = 0;
    assert(start + command_fields(given.take(0)) =~= start);
    while at < arguments.len()
        invariant
            at <= arguments@.len(),
            given == byte_strings(arguments@),
            hasher.wf(),
            !hasher.in_file(),
            hasher@ == start + command_fields(given.take(at as int)),
        decreases arguments.len() - at,
    {
        hasher.field("argument", arguments[at].as_slice());
        proof {
            assert(given.take(at + 1) =~= given.take(at as int).push(given[at as int]));
            assert(command_fields(given.take(at + 1)) =~= command_fields(
                given.take(at as int),
            ).push(field("argument"@, given[at as int])));
            assert(hasher@ =~= start + command_fields(given.take(at + 1)));
        }
        at = at + 1;
    }
    assert(given.take(at as int) =~= given);
    hash_environment(&mut hasher, spec.environment(), "environment-name");
    let mut identities = copy_identities(spec.identities());
    proof {
        lemma_ranked_view(
            identities@,
            |identity: LabeledIdentity| identity@,
            identity_before(),
        );
    }
    sort_ranked(&mut identities);
    hash_identities(&mut hasher, &identities);
    hash_outputs(&mut hasher, spec.outputs());
    assert(hasher@ =~= domain + key_fields(spec@, input_digest@));
    hasher.finish()
}

/// Capture of the input digest: each Cargo input set is rehashed in the order of the labels.
///
/// The caller hashes the declared paths first, then asks [`KeyResolution::next`]
/// which input set to rehash and reports the outcome, until none is left.
pub struct KeyResolution {
    hasher: InputHasher,
    rows: Vec<CargoRow>,
    at: usize,
    declared_digest: InputDigest,
}

impl KeyResolution {
    /// The input sets to be taken in, in order.
    pub closed spec fn rows(&self) -> Seq<CargoRowView> {
        row_views(self.rows@)
    }

    /// How many input sets have been taken in.
    pub closed spec fn taken(&self) -> int {
        self.at as int
    }

    /// Digest of the declared paths.
    pub closed spec fn declared_digest(&self) -> Seq<u8> {
        self.declared_digest@
    }

    /// Whether the digest agrees with what has been taken in.
    pub closed spec fn wf(&self) -> bool {
        &&& self.at <= self.rows@.len()
        &&& self.hasher.wf()
        &&& !self.hasher.in_file()
        &&& self.hasher@ == seq![
            field("domain"@, encode_utf8(CARGO_INPUTS_DOMAIN@)),
            field("declared-input-digest"@, self.declared_digest@),
        ] + rows_fields(row_views(self.rows@).take(self.at as int))
    }

    /// Start with the digest of the declared paths.
    pub fn begin(spec: &ArtifactCacheSpec, declared_digest: InputDigest) -> (resolution: Self)
        ensures
            resolution.wf(),
            resolution.rows() == sorted_rows(spec@.cargo_build_inputs),
            resolution.taken() == 0,
            resolution.declared_digest() == declared_digest@,
    {
        let inputs = spec.cargo_build_inputs();
        let ghost all = rows_of(spec@.cargo_build_inputs);
        let mut rows: Vec<CargoRow> = Vec::new();
        let mut at: usize = 0;
        assert(cargo_views(inputs@).len() == inputs@.len());
        while at < inputs.len()
            invariant
                at <= inputs@.len(),
                cargo_views(inputs@) == spec@.cargo_build_inputs,
                all == rows_of(spec@.cargo_build_inputs),
                all.len() == inputs@.len(),
                row_views(rows@) == all.take(at as int),
            decreases inputs.len() - at,
        {
            let ghost before = row_views(rows@);
            assert(spec@.cargo_build_inputs[at as int] == inputs@[at as int]@);
            rows.push(
                CargoRow {
                    label: inputs[at].label.clone(),
                    index: at,
                    fingerprint: inputs[at].resolved.fingerprint(),
                    input_digest: inputs[at].resolved.input_digest(),
                    validation_digest: inputs[at].resolved.validation_digest(),
                },
            );
            proof {
                assert(row_views(rows@) =~= before.push(all[at as int]));
                assert(all.take(at + 1) =~= all.take(at as int).push(all[at as int]));
            }
            at = at + 1;
        }
        assert(all.take(at as int) =~= all);
        proof {
            lemma_ranked_view(rows@, |row: CargoRow| row@, row_before());
        }
        sort_ranked(&mut rows);
        let mut hasher = InputHasher::new(CARGO_INPUTS_DOMAIN);
        hasher.field("declared-input-digest", declared_digest.as_bytes().as_slice());
        assert(hasher@ =~= seq![
            field("domain"@, encode_utf8(CARGO_INPUTS_DOMAIN@)),
            field("declared-input-digest"@, declared_digest@),
        ] + rows_fields(row_views(rows@).take(0)));
        KeyResolution { hasher, rows, at: 0, declared_digest }
    }

    /// Position of the input set to rehash next, if one is left.
    pub fn next(&self) -> (index: Option<usize>)
        requires
            self.wf(),
        ensures
            index is Some == (self.taken() < self.rows().len()),
            index matches Some(found) ==> found == self.rows()[self.taken()].index,
            index is None ==> self.taken() == self.rows().len(),
    {
        if self.at < self.rows.len() {
            Some(self.rows[self.at].index)
        } else {
            None
        }
    }

    /// The input set was rehashed; it has to be what the resolution had captured.
    pub fn rehashed(self, current: InputDigest) -> (result: Result<Self, ArtifactCacheError>)
        requires
            self.wf(),
            self.taken() < self.rows().len(),
        ensures
            ({
                let row = self.rows()[self.taken()];
                match result {
                    Ok(resolution) => {
                        &&& current@ == row.validation_digest
                        &&& resolution.wf()
                        &&& resolution.rows() == self.rows()
                        &&& resolution.taken() == self.taken() + 1
                        &&& resolution.declared_digest() == self.declared_digest()
                    },
                    Err(error) => {
                        &&& current@ != row.validation_digest
                        &&& error matches ArtifactCacheError::CargoBuildInputsChanged {
                            label,
                            before,
                            after,
                        }
                        &&& label@ == row.label
                        &&& before@ == row.validation_digest
                        &&& after == current
                    },
                }
            }),
    {
        let mut resolution = self;
        let row = &resolution.rows[resolution.at];
        let ghost rows = row_views(resolution.rows@);
        assert(rows[resolution.at as int] == row@);
        if current != row.validation_digest {
            return Err(
                ArtifactCacheError::CargoBuildInputsChanged {
                    label: row.label.clone(),
                    before: row.validation_digest,
                    after: current,
                },
            );
        }
        let label = row.label.clone();
        let fingerprint = row.fingerprint;
        let input_digest = row.input_digest;
        let ghost start = resolution.hasher@;
        resolution.hasher.field("cargo-input-label", label.as_str().as_bytes());
        resolution.hasher.field("cargo-build-fingerprint", fingerprint.as_bytes().as_slice());
        resolution.hasher.field("cargo-input-digest", input_digest.as_bytes().as_slice());
        proof {
            let at = resolution.at as int;
            assert(rows.take(at + 1).drop_last() =~= rows.take(at));
            assert(rows.take(at + 1).last() == rows[at]);
            assert(resolution.hasher@ =~= start + row_fields(rows[at]));
            assert(resolution.hasher@ =~= seq![
                field("domain"@, encode_utf8(CARGO_INPUTS_DOMAIN@)),
                field("declared-input-digest"@, resolution.declared_digest@),
            ] + rows_fields(rows.take(at + 1)));
        }
        assert(resolution.at < resolution.rows.len());
        resolution.at = resolution.at + 1;
        Ok(resolution)
    }

    /// The input set could not be rehashed.
    pub fn failed(self, source: WasmBuildError) -> (error: ArtifactCacheError)
        requires
            self.wf(),
            self.taken() < self.rows().len(),
        ensures
            error matches ArtifactCacheError::CargoBuildInputRevalidation {
                label,
                source: cause,
            } && label@ == self.rows()[self.taken()].label && cause == source,
    {
        ArtifactCacheError::CargoBuildInputRevalidation {
            label: self.rows[self.at].label.clone(),
            source,
        }
    }

    /// The key, once every input set has been taken in.
    pub fn resolve_key(self, spec: &ArtifactCacheSpec) -> (resolved: ResolvedKey)
        requires
            self.wf(),
            self.rows() == sorted_rows(spec@.cargo_build_inputs),
            self.taken() == self.rows().len(),
        ensures
            is_key_of(resolved, spec@, self.declared_digest()),
    {
        let inputs = spec.cargo_build_inputs();
        proof {
            assert(cargo_views(inputs@).len() == inputs@.len());
            assert(self.rows().take(self.taken()) =~= self.rows());
        }
        let input_digest = if inputs.len() == 0 {
            self.declared_digest
        } else {
            assert(self.hasher@ =~= seq![field("domain"@, encode_utf8(CARGO_INPUTS_DOMAIN@))] + (seq![
                field("declared-input-digest"@, self.declared_digest@),
            ] + rows_fields(sorted_rows(spec@.cargo_build_inputs))));
            self.hasher.finish()
        };
        ResolvedKey { key: resolve_content_key(spec, input_digest), input_digest }
    }
}

} // verus!

//! Acquisition of an artifact set: timings, outcome, preparation and build transaction.
//!
//! [`Preparation`] and [`ArtifactBuildTransaction`] decide what an acquisition
//! does next. Their callers take the locks, read and write the file system, and
//! measure the time.

use vstd::prelude::*;
use vstd::string::*;
use vstd::utf8::encode_utf8;
use super::error::{io_failure, is_io, ArtifactCacheError};
use super::key::ResolvedKey;
use super::layout::{output_location, staged_output_path};
use super::spec::{
    cargo_views, output_before, output_views, ArtifactCacheSpec, ArtifactCacheSpecView,
    CargoInputView, OutputView,
};
use super::validation::{description_violation, lemma_accepted_names_differ};
use crate::cache_fs::{
    cache_maintenance_due, lemma_changed_limits_are_due, limits_identity, maintenance_due,
    ArtifactCacheMaintenance, ArtifactCachePrunePolicy, MaintenanceMarker,
};
use crate::digest::{hex, InputDigest};
use crate::order::{bytes_less, in_order, lemma_bytes_less_total};
use crate::settings::copy_bytes;
use crate::text::{decimal, decimal_text, text_equal};
use crate::timing::{
    duration_text, lemma_length_determines_span, optional_duration_text, optional_sum,
    render_optional, saturating_add_optional_duration, saturating_sum, Duration, Timestamp,
};
use crate::wasm_cache::error::WasmBuildError;

verus! {

/// How often a preparation starts over because its inputs changed.
pub const MAX_PREPARATION_RETRIES: usize = 3;

/// Phase timings for one transactional artifact-cache acquisition.
#[derive(Clone, Copy, Debug, PartialEq, Eq, Structural)]
pub struct ArtifactCacheTimings {
    /// Time waiting for the caller-selected coordination scope.
    pub coordination_lock_wait: Duration,
    /// Time waiting for exact content-key ownership.
    pub content_lock_wait: Duration,
    /// Time waiting for short namespace mutations.
    pub namespace_lock_wait: Duration,
    /// Time spent hashing and verifying declared inputs.
    pub input_capture: Duration,
    /// Time spent validating or rejecting a committed cache entry.
    pub cache_lookup: Duration,
    /// Time the caller held a miss transaction before committing it.
    pub caller_build: Option<Duration>,
    /// Time spent validating staged output files.
    pub output_validation: Duration,
    /// Time spent publishing an immutable content entry.
    pub publication: Duration,
    /// Time spent materializing caller-facing output destinations.
    pub materialization: Duration,
    /// Time spent on configured best-effort retention.
    pub maintenance: Option<Duration>,
    /// Complete acquisition duration.
    pub total: Duration,
}

/// Whether nothing has been measured.
pub open spec fn is_zero(timings: ArtifactCacheTimings) -> bool {
    &&& timings.coordination_lock_wait@ == 0
    &&& timings.content_lock_wait@ == 0
    &&& timings.namespace_lock_wait@ == 0
    &&& timings.input_capture@ == 0
    &&& timings.cache_lookup@ == 0
    &&& timings.caller_build is None
    &&& timings.output_validation@ == 0
    &&& timings.publication@ == 0
    &&& timings.materialization@ == 0
    &&& timings.maintenance is None
    &&& timings.total@ == 0
}

/// Whether none of the phases was measured that only a build goes through.
pub open spec fn nothing_was_built(timings: ArtifactCacheTimings) -> bool {
    &&& timings.caller_build is None
    &&& timings.output_validation@ == 0
    &&& timings.publication@ == 0
}

/// Whether `sum` holds the sum of two timings, phase by phase.
pub open spec fn is_sum(
    left: ArtifactCacheTimings,
    right: ArtifactCacheTimings,
    sum: ArtifactCacheTimings,
) -> bool {
    &&& sum.coordination_lock_wait@ == saturating_sum(left.coordination_lock_wait@, right.coordination_lock_wait@)
    &&& sum.content_lock_wait@ == saturating_sum(left.content_lock_wait@, right.content_lock_wait@)
    &&& sum.namespace_lock_wait@ == saturating_sum(left.namespace_lock_wait@, right.namespace_lock_wait@)
    &&& sum.input_capture@ == saturating_sum(left.input_capture@, right.input_capture@)
    &&& sum.cache_lookup@ == saturating_sum(left.cache_lookup@, right.cache_lookup@)
    &&& optional_sum(left.caller_build, right.caller_build, sum.caller_build)
    &&& sum.output_validation@ == saturating_sum(left.output_validation@, right.output_validation@)
    &&& sum.publication@ == saturating_sum(left.publication@, right.publication@)
    &&& sum.materialization@ == saturating_sum(left.materialization@, right.materialization@)
    &&& optional_sum(left.maintenance, right.maintenance, sum.maintenance)
    &&& sum.total@ == saturating_sum(left.total@, right.total@)
}

/// Timings have one sum, in whichever order they are added.
pub proof fn lemma_sum_commutes(
    left: ArtifactCacheTimings,
    right: ArtifactCacheTimings,
    sum: ArtifactCacheTimings,
    swapped: ArtifactCacheTimings,
)
    requires
        is_sum(left, right, sum),
        is_sum(right, left, swapped),
    ensures
        sum == swapped,
{
    lemma_length_determines_span(sum.coordination_lock_wait, swapped.coordination_lock_wait);
    lemma_length_determines_span(sum.content_lock_wait, swapped.content_lock_wait);
    lemma_length_determines_span(sum.namespace_lock_wait, swapped.namespace_lock_wait);
    lemma_length_determines_span(sum.input_capture, swapped.input_capture);
    lemma_length_determines_span(sum.cache_lookup, swapped.cache_lookup);
    lemma_length_determines_span(sum.output_validation, swapped.output_validation);
    lemma_length_determines_span(sum.publication, swapped.publication);
    lemma_length_determines_span(sum.materialization, swapped.materialization);
    lemma_length_determines_span(sum.total, swapped.total);
    if left.caller_build is Some && right.caller_build is Some {
        lemma_length_determines_span(sum.caller_build->0, swapped.caller_build->0);
    }
    if left.maintenance is Some && right.maintenance is Some {
        lemma_length_determines_span(sum.maintenance->0, swapped.maintenance->0);
    }
}

/// Timings as one line of text.
pub open spec fn timings_text(timings: ArtifactCacheTimings) -> Seq<char> {
    "total="@ + duration_text(timings.total@)
        + " coordination_lock="@ + duration_text(timings.coordination_lock_wait@)
        + " content_lock="@ + duration_text(timings.content_lock_wait@)
        + " namespace_lock="@ + duration_text(timings.namespace_lock_wait@)
        + " inputs="@ + duration_text(timings.input_capture@)
        + " lookup="@ + duration_text(timings.cache_lookup@)
        + " build="@ + optional_duration_text(timings.caller_build)
        + " validation="@ + duration_text(timings.output_validation@)
        + " publication="@ + duration_text(timings.publication@)
        + " materialization="@ + duration_text(timings.materialization@)
        + " maintenance="@ + optional_duration_text(timings.maintenance)
}

impl Default for ArtifactCacheTimings {
    fn default() -> (timings: Self)
        ensures
            is_zero(timings),
    {
        ArtifactCacheTimings {
            coordination_lock_wait: Duration::zero(),
            content_lock_wait: Duration::zero(),
            namespace_lock_wait: Duration::zero(),
            input_capture: Duration::zero(),
            cache_lookup: Duration::zero(),
            caller_build: None,
            output_validation: Duration::zero(),
            publication: Duration::zero(),
            materialization: Duration::zero(),
            maintenance: None,
            total: Duration::zero(),
        }
    }
}

impl ArtifactCacheTimings {
    /// Time waiting for the caller-selected coordination scope.
    pub fn coordination_lock_wait(self) -> (time: Duration)
        ensures
            time == self.coordination_lock_wait,
    {
        self.coordination_lock_wait
    }

    /// Time waiting for exact content-key ownership.
    pub fn content_lock_wait(self) -> (time: Duration)
        ensures
            time == self.content_lock_wait,
    {
        self.content_lock_wait
    }

    /// Time waiting for short namespace mutations.
    pub fn namespace_lock_wait(self) -> (time: Duration)
        ensures
            time == self.namespace_lock_wait,
    {
        self.namespace_lock_wait
    }

    /// Time spent hashing and verifying declared inputs.
    pub fn input_capture(self) -> (time: Duration)
        ensures
            time == self.input_capture,
    {
        self.input_capture
    }

    /// Time spent validating or rejecting a committed cache entry.
    pub fn cache_lookup(self) -> (time: Duration)
        ensures
            time == self.cache_lookup,
    {
        self.cache_lookup
    }

    /// Time the caller held a miss transaction before committing it.
    pub fn caller_build(self) -> (time: Option<Duration>)
        ensures
            time == self.caller_build,
    {
        self.caller_build
    }

    /// Time spent validating staged output files.
    pub fn output_validation(self) -> (time: Duration)
        ensures
            time == self.output_validation,
    {
        self.output_validation
    }

    /// Time spent publishing an immutable content entry.
    pub fn publication(self) -> (time: Duration)
        ensures
            time == self.publication,
    {
        self.publication
    }

    /// Time spent materializing caller-facing output destinations.
    pub fn materialization(self) -> (time: Duration)
        ensures
            time == self.materialization,
    {
        self.materialization
    }

    /// Time spent on configured best-effort retention.
    pub fn maintenance(self) -> (time: Option<Duration>)
        ensures
            time == self.maintenance,
    {
        self.maintenance
    }

    /// Complete acquisition duration.
    pub fn total(self) -> (time: Duration)
        ensures
            time == self.total,
    {
        self.total
    }

    /// The sum of two timings, phase by phase.
    ///
    /// Timings in which nothing was measured change nothing.
    pub fn saturating_add(self, other: Self) -> (sum: Self)
        ensures
            is_sum(self, other, sum),
            is_zero(other) ==> sum == self,
            is_zero(self) ==> sum == other,
            sum.caller_build is None <==> self.caller_build is None && other.caller_build is None,
            sum.maintenance is None <==> self.maintenance is None && other.maintenance is None,
    {
        ArtifactCacheTimings {
            coordination_lock_wait: self.coordination_lock_wait.saturating_add(other.coordination_lock_wait),
            content_lock_wait: self.content_lock_wait.saturating_add(other.content_lock_wait),
            namespace_lock_wait: self.namespace_lock_wait.saturating_add(other.namespace_lock_wait),
            input_capture: self.input_capture.saturating_add(other.input_capture),
            cache_lookup: self.cache_lookup.saturating_add(other.cache_lookup),
            caller_build: saturating_add_optional_duration(self.caller_build, other.caller_build),
            output_validation: self.output_validation.saturating_add(other.output_validation),
            publication: self.publication.saturating_add(other.publication),
            materialization: self.materialization.saturating_add(other.materialization),
            maintenance: saturating_add_optional_duration(self.maintenance, other.maintenance),
            total: self.total.saturating_add(other.total),
        }
    }

    /// The timings as one line of text.
    pub fn render(self) -> (text: String)
        ensures
            text@ == timings_text(self),
    {
        let mut text = "total=".to_owned();
        text.append(self.total.render().as_str());
        text.append(" coordination_lock=");
        text.append(self.coordination_lock_wait.render().as_str());
        text.append(" content_lock=");
        text.append(self.content_lock_wait.render().as_str());
        text.append(" namespace_lock=");
        text.append(self.namespace_lock_wait.render().as_str());
        text.append(" inputs=");
        text.append(self.input_capture.render().as_str());
        text.append(" lookup=");
        text.append(self.cache_lookup.render().as_str());
        text.append(" build=");
        text.append(render_optional(self.caller_build).as_str());
        text.append(" validation=");
        text.append(self.output_validation.render().as_str());
        text.append(" publication=");
        text.append(self.publication.render().as_str());
        text.append(" materialization=");
        text.append(self.materialization.render().as_str());
        text.append(" maintenance=");
        text.append(render_optional(self.maintenance).as_str());
        text
    }
}

/// One logical artifact materialized at its caller-selected destination.
#[derive(Clone, Debug)]
pub struct ArtifactCacheArtifact {
    /// Stable logical output name.
    pub name: String,
    /// Caller-selected materialized destination.
    pub path: Vec<u8>,
}

impl ArtifactCacheArtifact {
    /// Stable logical output name.
    pub fn name(&self) -> (name: &str)
        ensures
            name@ == self.name@,
    {
        self.name.as_str()
    }

    /// Caller-selected materialized destination.
    pub fn path(&self) -> (path: &[u8])
        ensures
            path@ == self.path@,
    {
        self.path.as_slice()
    }
}

/// Details shared by built and reused transactional artifact outcomes.
#[derive(Debug)]
pub struct ArtifactCacheRecord {
    /// Exact content key selecting the immutable cache entry.
    pub key: InputDigest,
    /// Exact digest of declared input and tool paths.
    pub input_digest: InputDigest,
    /// Logical artifacts and their materialized caller destinations.
    pub artifacts: Vec<ArtifactCacheArtifact>,
    /// Phase timings for this acquisition.
    pub timings: ArtifactCacheTimings,
    /// Best-effort retention attempted during this acquisition, when configured.
    pub maintenance: Option<ArtifactCacheMaintenance>,
}

impl ArtifactCacheRecord {
    /// Exact content key selecting the immutable cache entry.
    pub fn key(&self) -> (key: InputDigest)
        ensures
            key == self.key,
    {
        self.key
    }

    /// Exact digest of declared input and tool paths.
    pub fn input_digest(&self) -> (digest: InputDigest)
        ensures
            digest == self.input_digest,
    {
        self.input_digest
    }

    /// Logical artifacts and their materialized caller destinations.
    pub fn artifacts(&self) -> (artifacts: &Vec<ArtifactCacheArtifact>)
        ensures
            *artifacts == self.artifacts,
    {
        &self.artifacts
    }

    /// Phase timings for this acquisition.
    pub fn timings(&self) -> (timings: ArtifactCacheTimings)
        ensures
            timings == self.timings,
    {
        self.timings
    }

    /// Best-effort retention attempted during this acquisition, when configured.
    pub fn maintenance(&self) -> (maintenance: Option<&ArtifactCacheMaintenance>)
        ensures
            maintenance is Some == self.maintenance is Some,
            maintenance matches Some(found) ==> *found == self.maintenance->0,
    {
        match &self.maintenance {
            Some(maintenance) => Some(maintenance),
            None => None,
        }
    }
}

/// Whether artifacts are the declared outputs at their destinations.
pub open spec fn are_artifacts_of(
    artifacts: Seq<ArtifactCacheArtifact>,
    outputs: Seq<OutputView>,
) -> bool {
    &&& artifacts.len() == outputs.len()
    &&& forall|i: int|
        0 <= i < outputs.len() ==> (#[trigger] artifacts[i]).name@ == outputs[i].name
            && artifacts[i].path@ == outputs[i].destination
}

/// Whether the names of artifacts strictly ascend.
pub open spec fn names_ascend(artifacts: Seq<ArtifactCacheArtifact>) -> bool {
    forall|i: int, j: int|
        #![trigger artifacts[i], artifacts[j]]
        0 <= i < j < artifacts.len() ==> bytes_less(
            encode_utf8(artifacts[i].name@),
            encode_utf8(artifacts[j].name@),
        )
}

/// The artifacts of an accepted description stand in the order of their names, however its
/// outputs were declared.
pub proof fn lemma_artifacts_ascend(
    artifacts: Seq<ArtifactCacheArtifact>,
    spec: ArtifactCacheSpecView,
)
    requires
        in_order(spec.outputs, output_before()),
        description_violation(spec) is None,
        are_artifacts_of(artifacts, spec.outputs),
    ensures
        names_ascend(artifacts),
{
    broadcast use vstd::utf8::encode_utf8_decode_utf8;

    let outputs = spec.outputs;
    lemma_accepted_names_differ(spec);
    assert forall|i: int, j: int|
        #![trigger artifacts[i], artifacts[j]]
        0 <= i < j < artifacts.len() implies bytes_less(
        encode_utf8(artifacts[i].name@),
        encode_utf8(artifacts[j].name@),
    ) by {
        let (a, b) = (outputs[i].name, outputs[j].name);
        assert(artifacts[i].name@ == a && artifacts[j].name@ == b);
        assert(!output_before()(outputs[j], outputs[i]));
        assert(outputs[i].name != outputs[j].name);
        assert(vstd::utf8::decode_utf8(encode_utf8(a)) == a);
        assert(vstd::utf8::decode_utf8(encode_utf8(b)) == b);
        lemma_bytes_less_total(encode_utf8(a), encode_utf8(b));
    }
}

/// The record of a finished acquisition.
pub fn cache_record(
    spec: &ArtifactCacheSpec,
    resolved: ResolvedKey,
    timings: ArtifactCacheTimings,
    maintenance: Option<ArtifactCacheMaintenance>,
) -> (record: ArtifactCacheRecord)
    ensures
        record.key == resolved.key,
        record.input_digest == resolved.input_digest,
        are_artifacts_of(record.artifacts@, spec@.outputs),
        description_violation(spec@) is None ==> names_ascend(record.artifacts@),
        record.timings == timings,
        record.maintenance == maintenance,
{
    let outputs = spec.outputs();
    let mut artifacts: Vec<ArtifactCacheArtifact> = Vec::new();
    let mut at: usize = 0;
    assert(output_views(outputs@).len() == outputs@.len());
    while at < outputs.len()
        invariant
            at <= outputs@.len(),
            output_views(outputs@) == spec@.outputs,
            artifacts@.len() == at,
            forall|i: int|
                0 <= i < at ==> (#[trigger] artifacts@[i]).name@ == spec@.outputs[i].name
                    && artifacts@[i].path@ == spec@.outputs[i].destination,
        decreases outputs.len() - at,
    {
        assert(spec@.outputs[at as int] == outputs@[at as int]@);
        artifacts.push(
            ArtifactCacheArtifact {
                name: outputs[at].name.clone(),
                path: copy_bytes(outputs[at].destination.as_slice()),
            },
        );
        at = at + 1;
    }
    proof {
        if description_violation(spec@) is None {
            lemma_artifacts_ascend(artifacts@, spec@);
        }
    }
    ArtifactCacheRecord {
        key: resolved.key,
        input_digest: resolved.input_digest,
        artifacts,
        timings,
        maintenance,
    }
}

/// Whether an artifact transaction published or reused its exact output set.
#[derive(Debug)]
pub enum ArtifactCacheOutcome {
    /// The caller populated staging and the complete result was published.
    Built(ArtifactCacheRecord),
    /// A complete existing entry was verified and materialized.
    Reused(ArtifactCacheRecord),
}

/// The record of an outcome.
pub open spec fn outcome_record(outcome: ArtifactCacheOutcome) -> ArtifactCacheRecord {
    match outcome {
        ArtifactCacheOutcome::Built(record) => record,
        ArtifactCacheOutcome::Reused(record) => record,
    }
}

/// Whether a build time is known of what was built, and of nothing else.
pub open spec fn timed_as_it_went(outcome: ArtifactCacheOutcome) -> bool {
    outcome_record(outcome).timings.caller_build is None <==> outcome is Reused
}

/// An outcome as one line of text.
pub open spec fn outcome_text(outcome: ArtifactCacheOutcome) -> Seq<char> {
    let record = outcome_record(outcome);
    (if outcome is Reused {
        "reused"@
    } else {
        "built"@
    }) + " key="@ + hex(record.key@) + " artifacts="@ + decimal(record.artifacts@.len()) + " "@
        + timings_text(record.timings)
}

impl ArtifactCacheOutcome {
    /// Read the common acquisition record.
    pub fn record(&self) -> (record: &ArtifactCacheRecord)
        ensures
            *record == outcome_record(*self),
    {
        match self {
            ArtifactCacheOutcome::Built(record) | ArtifactCacheOutcome::Reused(record) => record,
        }
    }

    /// Report whether a complete matching artifact set was reused.
    pub fn is_reused(&self) -> (reused: bool)
        ensures
            reused == (*self is Reused),
    {
        match self {
            ArtifactCacheOutcome::Reused(_) => true,
            ArtifactCacheOutcome::Built(_) => false,
        }
    }

    /// The outcome as one line of text.
    pub fn render(&self) -> (text: String)
        ensures
            text@ == outcome_text(*self),
    {
        let record = self.record();
        let mut text = if self.is_reused() {
            "reused".to_owned()
        } else {
            "built".to_owned()
        };
        text.append(" key=");
        text.append(record.key.to_hex().as_str());
        text.append(" artifacts=");
        text.append(decimal_text(record.artifacts.len() as u128).as_str());
        text.append(" ");
        text.append(record.timings.render().as_str());
        text
    }
}

/// Whether the fingerprint of a resolved Cargo input set is still the one that was captured.
pub open spec fn is_current(input: CargoInputView, current: Result<InputDigest, WasmBuildError>) -> bool {
    current matches Ok(fingerprint) && fingerprint@ == input.resolved.fingerprint
}

/// Position of the first input set from `from` on that is no longer current.
pub open spec fn first_outdated(
    inputs: Seq<CargoInputView>,
    current: Seq<Result<InputDigest, WasmBuildError>>,
    from: int,
) -> Option<int>
    decreases current.len() - from,
{
    if from < 0 || from >= current.len() {
        None
    } else if is_current(inputs[from], current[from]) {
        first_outdated(inputs, current, from + 1)
    } else {
        Some(from)
    }
}

/// Check that every resolved Cargo input set still has the fingerprint that was captured.
///
/// `current` holds the fingerprints of new resolutions, in order; a caller
/// may stop at the first resolution that failed or gave another fingerprint.
pub fn revalidate_cargo_build_input_fingerprints(
    spec: &ArtifactCacheSpec,
    current: Vec<Result<InputDigest, WasmBuildError>>,
) -> (result: Result<(), ArtifactCacheError>)
    requires
        current@.len() <= spec@.cargo_build_inputs.len(),
    ensures
        match first_outdated(spec@.cargo_build_inputs, current@, 0) {
            None => result is Ok,
            Some(at) => {
                let input = spec@.cargo_build_inputs[at];
                &&& result matches Err(error)
                &&& match current@[at] {
                    Ok(fingerprint) => {
                        &&& error matches ArtifactCacheError::CargoBuildInputsChanged {
                            label,
                            before,
                            after,
                        }
                        &&& label@ == input.label
                        &&& before@ == input.resolved.fingerprint
                        &&& after == fingerprint
                    },
                    Err(cause) => {
                        &&& error matches ArtifactCacheError::CargoBuildInputRevalidation {
                            label,
                            source,
                        }
                        &&& label@ == input.label
                        &&& source == cause
                    },
                }
            },
        },
{
    let inputs = spec.cargo_build_inputs();
    let ghost all = current@;
    let ghost views = spec@.cargo_build_inputs;
    let mut rest = current;
    let mut at: usize = 0;
    assert(cargo_views(inputs@).len() == inputs@.len());
    while rest.len() > 0
        invariant
            at <= all.len() <= inputs@.len(),
            all == current@,
            rest@ == all.skip(at as int),
            views == cargo_views(inputs@),
            views == spec@.cargo_build_inputs,
            first_outdated(views, all, 0) == first_outdated(views, all, at as int),
        decreases rest.len(),
    {
        let input = &inputs[at];
        assert(views[at as int] == input@);
        let answer = rest.remove(0);
        assert(answer == all[at as int]);
        match answer {
            Err(source) => {
                return Err(
                    ArtifactCacheError::CargoBuildInputRevalidation {
                        label: input.label.clone(),
                        source,
                    },
                );
            },
            Ok(after) => {
                let before = input.resolved.fingerprint();
                if after != before {
                    return Err(
                        ArtifactCacheError::CargoBuildInputsChanged {
                            label: input.label.clone(),
                            before,
                            after,
                        },
                    );
                }
            },
        }
        assert(rest@ =~= all.skip(at + 1));
        assert(at < inputs.len());
        at = at + 1;
    }
    Ok(())
}

/// The retention policy to apply now: the configured one, when a pass is due.
///
/// A policy other than the recorded one is always due.
pub fn maintenance_to_perform(
    spec: &ArtifactCacheSpec,
    marker: &Option<MaintenanceMarker>,
    now: Timestamp,
) -> (policy: Option<ArtifactCachePrunePolicy>)
    ensures
        policy == match spec@.prune_policy {
            None => None,
            Some(configured) => if maintenance_due(
                *marker,
                spec@.prune_interval,
                limits_identity(configured.max_age, configured.max_size_bytes),
                now@,
            ) {
                Some(configured)
            } else {
                None
            },
        },
        forall|recorded: ArtifactCachePrunePolicy|
            (*marker matches Some(last) && last.identity@ == #[trigger] limits_identity(
                recorded.max_age,
                recorded.max_size_bytes,
            )) && spec@.prune_policy != Some(recorded) ==> policy == spec@.prune_policy,
{
    proof {
        assert forall|recorded: ArtifactCachePrunePolicy|
            (*marker matches Some(last) && last.identity@ == #[trigger] limits_identity(
                recorded.max_age,
                recorded.max_size_bytes,
            )) && (spec@.prune_policy matches Some(configured) && configured != recorded) implies {
            let configured = spec@.prune_policy->0;
            maintenance_due(
                *marker,
                spec@.prune_interval,
                limits_identity(configured.max_age, configured.max_size_bytes),
                now@,
            )
        } by {
            let configured = spec@.prune_policy->0;
            lemma_changed_limits_are_due(
                marker->0,
                spec@.prune_interval,
                recorded.max_age,
                recorded.max_size_bytes,
                configured.max_age,
                configured.max_size_bytes,
                now@,
            );
        }
    }
    match spec.prune_policy() {
        None => None,
        Some(policy) => {
            let identity = policy.maintenance_identity();
            if cache_maintenance_due(marker, spec.prune_interval(), identity.as_str(), now) {
                Some(policy)
            } else {
                None
            }
        },
    }
}

/// What a preparation does next.
#[derive(Clone, Copy, Debug)]
pub enum PreparationStage {
    /// Capture the inputs without a content lock.
    Capture,
    /// Capture the inputs again under the lock of this content key.
    Verify(ResolvedKey),
    /// Look the entry of this content key up under the lock of the namespace.
    Lookup(ResolvedKey),
    /// Materialize the entry, then capture the inputs once more.
    Materialize(ResolvedKey),
    /// Nothing: the entry was materialized while its inputs stayed the same.
    Reused(ResolvedKey),
    /// Let the caller build the artifacts of this content key.
    Build(ResolvedKey),
    /// Nothing: the inputs changed too often.
    GivenUp,
}

/// What a preparation does after another change of the inputs.
pub open spec fn after_change(changes: int) -> PreparationStage {
    if changes + 1 < MAX_PREPARATION_RETRIES {
        PreparationStage::Capture
    } else {
        PreparationStage::GivenUp
    }
}

/// What a preparation does once the inputs were captured again under the content lock.
pub open spec fn after_verification(
    changes: int,
    resolved: ResolvedKey,
    after: ResolvedKey,
) -> PreparationStage {
    if resolved.input_digest@ == after.input_digest@ {
        PreparationStage::Lookup(resolved)
    } else {
        after_change(changes)
    }
}

/// What a preparation does once the entry was looked up.
pub open spec fn after_lookup(resolved: ResolvedKey, reusable: bool) -> PreparationStage {
    if reusable {
        PreparationStage::Materialize(resolved)
    } else {
        PreparationStage::Build(resolved)
    }
}

/// What a preparation does once the entry was materialized.
pub open spec fn after_materialization(
    changes: int,
    resolved: ResolvedKey,
    after: ResolvedKey,
) -> PreparationStage {
    if resolved.input_digest@ == after.input_digest@ {
        PreparationStage::Reused(resolved)
    } else {
        after_change(changes)
    }
}

/// One preparation of an acquisition.
#[derive(Debug)]
pub struct Preparation {
    /// What the preparation does next.
    pub stage: PreparationStage,
    /// How many attempts ended because the inputs changed.
    pub changes: usize,
    /// The last observed change of the inputs.
    pub last_change: Option<(InputDigest, InputDigest)>,
    /// Time measured so far.
    pub timings: ArtifactCacheTimings,
}

impl Preparation {
    /// What holds of a preparation at every stage.
    ///
    /// It is given up after [`MAX_PREPARATION_RETRIES`] changes, not earlier,
    /// and then knows the last change. No phase that follows it is measured.
    pub open spec fn wf(&self) -> bool {
        &&& self.changes <= MAX_PREPARATION_RETRIES
        &&& self.changes == MAX_PREPARATION_RETRIES <==> self.stage is GivenUp
        &&& self.changes > 0 ==> self.last_change is Some
        &&& nothing_was_built(self.timings)
        &&& self.timings.maintenance is None
        &&& self.timings.total@ == 0
    }

    /// Whether a preparation starts over, or gives up, after a change of the inputs.
    pub open spec fn starts_over(&self, before: InputDigest, after: InputDigest, next: Self) -> bool {
        &&& next.changes == self.changes + 1
        &&& next.last_change == Some((before, after))
        &&& next.stage == after_change(self.changes as int)
    }

    /// Start under the coordination lock, once the Cargo input sets have been found current.
    pub fn begin(coordination_wait: Duration, input_capture: Duration) -> (preparation: Self)
        ensures
            preparation.wf(),
            preparation.stage is Capture,
            preparation.changes == 0,
            preparation.last_change is None,
            preparation.timings.coordination_lock_wait == coordination_wait,
            preparation.timings.input_capture == input_capture,
            preparation.timings.content_lock_wait@ == 0,
            preparation.timings.namespace_lock_wait@ == 0,
            preparation.timings.cache_lookup@ == 0,
            preparation.timings.materialization@ == 0,
            preparation.timings.caller_build is None,
            preparation.timings.maintenance is None,
            preparation.timings.output_validation@ == 0,
            preparation.timings.publication@ == 0,
            preparation.timings.total@ == 0,
    {
        let mut timings = ArtifactCacheTimings::default();
        timings.coordination_lock_wait = coordination_wait;
        timings.input_capture = input_capture;
        Preparation { stage: PreparationStage::Capture, changes: 0, last_change: None, timings }
    }

    fn input_changed(&mut self, before: InputDigest, after: InputDigest)
        requires
            old(self).wf(),
            old(self).stage !is GivenUp,
        ensures
            final(self).wf(),
            final(self).timings == old(self).timings,
            old(self).starts_over(before, after, *final(self)),
    {
        self.last_change = Some((before, after));
        self.changes = self.changes + 1;
        self.stage = if self.changes < MAX_PREPARATION_RETRIES {
            PreparationStage::Capture
        } else {
            PreparationStage::GivenUp
        };
    }

    /// The inputs were captured.
    pub fn captured(&mut self, resolved: ResolvedKey, elapsed: Duration)
        requires
            old(self).wf(),
            old(self).stage is Capture,
        ensures
            final(self).wf(),
            final(self).stage == PreparationStage::Verify(resolved),
            final(self).changes == old(self).changes,
            final(self).last_change == old(self).last_change,
            final(self).timings == (ArtifactCacheTimings {
                input_capture: final(self).timings.input_capture,
                ..old(self).timings
            }),
            final(self).timings.input_capture@ == saturating_sum(
                old(self).timings.input_capture@,
                elapsed@,
            ),
    {
        self.timings.input_capture = self.timings.input_capture.saturating_add(elapsed);
        self.stage = PreparationStage::Verify(resolved);
    }

    /// The inputs were captured again under the content lock; only unchanged inputs go on.
    pub fn verified(&mut self, after: ResolvedKey, content_wait: Duration, elapsed: Duration)
        requires
            old(self).wf(),
            old(self).stage is Verify,
        ensures
            final(self).wf(),
            final(self).timings == (ArtifactCacheTimings {
                content_lock_wait: final(self).timings.content_lock_wait,
                input_capture: final(self).timings.input_capture,
                ..old(self).timings
            }),
            final(self).timings.content_lock_wait@ == saturating_sum(
                old(self).timings.content_lock_wait@,
                content_wait@,
            ),
            final(self).timings.input_capture@ == saturating_sum(
                old(self).timings.input_capture@,
                elapsed@,
            ),
            final(self).stage == after_verification(
                old(self).changes as int,
                old(self).stage->Verify_0,
                after,
            ),
            ({
                let resolved = old(self).stage->Verify_0;
                if resolved.input_digest@ == after.input_digest@ {
                    &&& final(self).changes == old(self).changes
                    &&& final(self).last_change == old(self).last_change
                } else {
                    old(self).starts_over(resolved.input_digest, after.input_digest, *final(self))
                }
            }),
    {
        self.timings.content_lock_wait = self.timings.content_lock_wait.saturating_add(
            content_wait,
        );
        self.timings.input_capture = self.timings.input_capture.saturating_add(elapsed);
        if let PreparationStage::Verify(resolved) = self.stage {
            if resolved.input_digest != after.input_digest {
                self.input_changed(resolved.input_digest, after.input_digest);
            } else {
                self.stage = PreparationStage::Lookup(resolved);
            }
        }
    }

    /// The entry was looked up under the lock of the namespace.
    pub fn looked_up(&mut self, reusable: bool, namespace_wait: Duration, elapsed: Duration)
        requires
            old(self).wf(),
            old(self).stage is Lookup,
        ensures
            final(self).wf(),
            final(self).changes == old(self).changes,
            final(self).last_change == old(self).last_change,
            final(self).timings == (ArtifactCacheTimings {
                namespace_lock_wait: final(self).timings.namespace_lock_wait,
                cache_lookup: final(self).timings.cache_lookup,
                ..old(self).timings
            }),
            final(self).timings.namespace_lock_wait@ == saturating_sum(
                old(self).timings.namespace_lock_wait@,
                namespace_wait@,
            ),
            final(self).timings.cache_lookup@ == saturating_sum(
                old(self).timings.cache_lookup@,
                elapsed@,
            ),
            final(self).stage == after_lookup(old(self).stage->Lookup_0, reusable),
    {
        self.timings.namespace_lock_wait = self.timings.namespace_lock_wait.saturating_add(
            namespace_wait,
        );
        self.timings.cache_lookup = self.timings.cache_lookup.saturating_add(elapsed);
        if let PreparationStage::Lookup(resolved) = self.stage {
            self.stage = if reusable {
                PreparationStage::Materialize(resolved)
            } else {
                PreparationStage::Build(resolved)
            };
        }
    }

    /// The entry was materialized and the inputs were captured once more; only unchanged inputs
    /// make it a hit.
    pub fn materialized(&mut self, after: ResolvedKey, materialization: Duration, elapsed: Duration)
        requires
            old(self).wf(),
            old(self).stage is Materialize,
        ensures
            final(self).wf(),
            final(self).timings == (ArtifactCacheTimings {
                materialization: final(self).timings.materialization,
                input_capture: final(self).timings.input_capture,
                ..old(self).timings
            }),
            final(self).timings.materialization@ == saturating_sum(
                old(self).timings.materialization@,
                materialization@,
            ),
            final(self).timings.input_capture@ == saturating_sum(
                old(self).timings.input_capture@,
                elapsed@,
            ),
            final(self).stage == after_materialization(
                old(self).changes as int,
                old(self).stage->Materialize_0,
                after,
            ),
            ({
                let resolved = old(self).stage->Materialize_0;
                if resolved.input_digest@ == after.input_digest@ {
                    &&& final(self).changes == old(self).changes
                    &&& final(self).last_change == old(self).last_change
                } else {
                    old(self).starts_over(resolved.input_digest, after.input_digest, *final(self))
                }
            }),
    {
        self.timings.materialization = self.timings.materialization.saturating_add(
            materialization,
        );
        self.timings.input_capture = self.timings.input_capture.saturating_add(elapsed);
        if let PreparationStage::Materialize(resolved) = self.stage {
            if after.input_digest != resolved.input_digest {
                self.input_changed(resolved.input_digest, after.input_digest);
            } else {
                self.stage = PreparationStage::Reused(resolved);
            }
        }
    }

    /// The record of a hit.
    pub fn finish_reused(
        self,
        spec: &ArtifactCacheSpec,
        maintenance: Option<ArtifactCacheMaintenance>,
        maintenance_time: Option<Duration>,
        total: Duration,
    ) -> (record: ArtifactCacheRecord)
        requires
            self.wf(),
            self.stage is Reused,
        ensures
            record.key == self.stage->Reused_0.key,
            record.input_digest == self.stage->Reused_0.input_digest,
            are_artifacts_of(record.artifacts@, spec@.outputs),
            description_violation(spec@) is None ==> names_ascend(record.artifacts@),
            record.timings == (ArtifactCacheTimings {
                maintenance: maintenance_time,
                total,
                ..self.timings
            }),
            nothing_was_built(record.timings),
            timed_as_it_went(ArtifactCacheOutcome::Reused(record)),
            record.maintenance == maintenance,
    {
        let mut timings = self.timings;
        timings.maintenance = maintenance_time;
        timings.total = total;
        let resolved = match self.stage {
            PreparationStage::Reused(resolved) => resolved,
            _ => vstd::pervasive::unreached(),
        };
        cache_record(spec, resolved, timings, maintenance)
    }

    /// The error of a preparation that was given up.
    pub fn given_up(&self) -> (error: ArtifactCacheError)
        requires
            self.wf(),
            self.stage is GivenUp,
        ensures
            self.last_change matches Some((before, after)) && (error
                matches ArtifactCacheError::InputsChangedDuringPreparation {
                before: first,
                after: last,
            } && first == before && last == after),
    {
        let (before, after) = self.last_change.unwrap();
        ArtifactCacheError::InputsChangedDuringPreparation { before, after }
    }

    /// The transaction in which the caller builds the artifacts.
    pub fn into_transaction(
        self,
        spec: &ArtifactCacheSpec,
        staging_directory: Vec<u8>,
        entry_directory: Vec<u8>,
        namespace_directory: Vec<u8>,
    ) -> (transaction: ArtifactBuildTransaction)
        requires
            self.wf(),
            self.stage is Build,
        ensures
            transaction.wf(),
            transaction.stage is Open,
            transaction.spec@ == spec@,
            transaction.resolved == self.stage->Build_0,
            transaction.staging_directory == staging_directory,
            transaction.entry_directory == entry_directory,
            transaction.namespace_directory == namespace_directory,
            transaction.timings == self.timings,
    {
        let resolved = match self.stage {
            PreparationStage::Build(resolved) => resolved,
            _ => vstd::pervasive::unreached(),
        };
        ArtifactBuildTransaction {
            spec: spec.duplicate(),
            resolved,
            staging_directory,
            entry_directory,
            namespace_directory,
            timings: self.timings,
            stage: CommitStage::Open,
        }
    }
}

/// How far a build transaction has come.
#[derive(Clone, Copy, Debug, PartialEq, Eq, Structural)]
pub enum CommitStage {
    /// The caller may still write into the staging directory.
    Open,
    /// The staged outputs were found complete.
    Validated,
    /// The inputs were found unchanged behind the staged outputs.
    Confirmed,
    /// The staging directory has become the immutable entry.
    Published,
}

/// Result of preparing a transactional artifact-set acquisition.
pub enum ArtifactCachePreparation {
    /// A complete verified entry was materialized without running the caller's build.
    Reused(ArtifactCacheRecord),
    /// The caller must populate and commit a transaction-owned staging directory.
    Build(ArtifactBuildTransaction),
}

impl ArtifactCachePreparation {
    /// Return the already materialized record, or `None` for a cache miss transaction.
    pub fn reused_record(&self) -> (record: Option<&ArtifactCacheRecord>)
        ensures
            record is Some == (*self is Reused),
            record matches Some(found) ==> *found == self->Reused_0,
    {
        match self {
            ArtifactCachePreparation::Reused(record) => Some(record),
            ArtifactCachePreparation::Build(_) => None,
        }
    }
}

/// Owned miss transaction of one content key.
pub struct ArtifactBuildTransaction {
    /// Description of the artifact set.
    pub spec: ArtifactCacheSpec,
    /// Key and input digest under which the build started.
    pub resolved: ResolvedKey,
    /// Directory in which the caller builds.
    pub staging_directory: Vec<u8>,
    /// Directory that the staging directory becomes.
    pub entry_directory: Vec<u8>,
    /// Directory of the namespace.
    pub namespace_directory: Vec<u8>,
    /// Time measured so far.
    pub timings: ArtifactCacheTimings,
    /// How far the transaction has come.
    pub stage: CommitStage,
}

/// Position of the first output with this name, from `from` on.
pub open spec fn output_position(outputs: Seq<OutputView>, name: Seq<char>, from: int) -> Option<int>
    decreases outputs.len() - from,
{
    if from < 0 || from >= outputs.len() {
        None
    } else if outputs[from].name == name {
        Some(from)
    } else {
        output_position(outputs, name, from + 1)
    }
}

impl ArtifactBuildTransaction {
    /// What holds of a transaction at every stage.
    ///
    /// Only complete outputs of unchanged inputs are published, since each
    /// stage is reached from the one before it alone. The time of the build is
    /// known once the outputs are.
    pub open spec fn wf(&self) -> bool {
        self.timings.caller_build is Some <==> self.stage !is Open
    }

    /// Whether the staging directory still has to be removed when the transaction ends.
    pub fn is_armed(&self) -> (armed: bool)
        ensures
            armed == (self.stage !is Published),
    {
        self.stage != CommitStage::Published
    }

    /// Transaction-owned directory in which the caller may run its build.
    ///
    /// Commit accepts only the cache-created `outputs` child at this root.
    pub fn staging_directory(&self) -> (path: &[u8])
        ensures
            path@ == self.staging_directory@,
    {
        self.staging_directory.as_slice()
    }

    /// Position of a declared output.
    pub fn output_index(&self, name: &str) -> (index: Option<usize>)
        ensures
            match (index, output_position(self.spec@.outputs, name@, 0)) {
                (Some(found), Some(expected)) => found == expected,
                (None, None) => true,
                _ => false,
            },
    {
        let outputs = self.spec.outputs();
        let mut at: usize = 0;
        assert(output_views(outputs@).len() == outputs@.len());
        while at < outputs.len()
            invariant
                at <= outputs@.len(),
                output_views(outputs@) == self.spec@.outputs,
                self.spec@.outputs.len() == outputs@.len(),
                output_position(self.spec@.outputs, name@, 0) == output_position(
                    self.spec@.outputs,
                    name@,
                    at as int,
                ),
            decreases outputs.len() - at,
        {
            assert(self.spec@.outputs[at as int] == outputs@[at as int]@);
            if text_equal(outputs[at].name.as_str(), name) {
                return Some(at);
            }
            at = at + 1;
        }
        None
    }

    /// Checked staging destination for one declared logical output.
    pub fn output_path(&self, name: &str) -> (result: Result<Vec<u8>, ArtifactCacheError>)
        ensures
            match output_position(self.spec@.outputs, name@, 0) {
                Some(at) => result matches Ok(path) && path@ == output_location(
                    self.staging_directory@,
                    at as nat,
                ),
                None => result matches Err(ArtifactCacheError::UnknownOutput { name: unknown })
                    && unknown@ == name@,
            },
    {
        match self.output_index(name) {
            Some(index) => Ok(staged_output_path(self.staging_directory.as_slice(), index)),
            None => Err(ArtifactCacheError::UnknownOutput { name: name.to_owned() }),
        }
    }

    /// The staged outputs were found complete.
    pub fn validated(&mut self, caller_build: Duration, elapsed: Duration)
        requires
            old(self).wf(),
            old(self).stage is Open,
        ensures
            final(self).wf(),
            final(self).stage is Validated,
            *final(self) == (ArtifactBuildTransaction {
                stage: CommitStage::Validated,
                timings: ArtifactCacheTimings {
                    caller_build: Some(caller_build),
                    output_validation: elapsed,
                    ..old(self).timings
                },
                ..*old(self)
            }),
    {
        self.timings.caller_build = Some(caller_build);
        self.timings.output_validation = elapsed;
        self.stage = CommitStage::Validated;
    }

    /// The inputs were captured behind the build; only unchanged inputs are published.
    pub fn confirmed(&mut self, verified: ResolvedKey, elapsed: Duration) -> (result: Result<
        (),
        ArtifactCacheError,
    >)
        requires
            old(self).wf(),
            old(self).stage is Validated,
        ensures
            final(self).wf(),
            final(self).spec == old(self).spec,
            final(self).resolved == old(self).resolved,
            final(self).staging_directory == old(self).staging_directory,
            final(self).entry_directory == old(self).entry_directory,
            final(self).namespace_directory == old(self).namespace_directory,
            final(self).timings == (ArtifactCacheTimings {
                input_capture: final(self).timings.input_capture,
                ..old(self).timings
            }),
            final(self).timings.input_capture@ == saturating_sum(
                old(self).timings.input_capture@,
                elapsed@,
            ),
            if verified.input_digest@ == old(self).resolved.input_digest@ {
                result is Ok && final(self).stage is Confirmed
            } else {
                &&& final(self).stage is Validated
                &&& result matches Err(
                    ArtifactCacheError::InputsChangedDuringBuild { before, after },
                )
                &&& before == old(self).resolved.input_digest
                &&& after == verified.input_digest
            },
    {
        self.timings.input_capture = self.timings.input_capture.saturating_add(elapsed);
        if verified.input_digest != self.resolved.input_digest {
            return Err(
                ArtifactCacheError::InputsChangedDuringBuild {
                    before: self.resolved.input_digest,
                    after: verified.input_digest,
                },
            );
        }
        self.stage = CommitStage::Confirmed;
        Ok(())
    }

    /// The staging directory has become the immutable entry.
    pub fn published(&mut self, namespace_wait: Duration, elapsed: Duration)
        requires
            old(self).wf(),
            old(self).stage is Confirmed,
        ensures
            final(self).wf(),
            final(self).stage is Published,
            final(self).spec == old(self).spec,
            final(self).resolved == old(self).resolved,
            final(self).staging_directory == old(self).staging_directory,
            final(self).entry_directory == old(self).entry_directory,
            final(self).namespace_directory == old(self).namespace_directory,
            final(self).timings == (ArtifactCacheTimings {
                namespace_lock_wait: final(self).timings.namespace_lock_wait,
                publication: elapsed,
                ..old(self).timings
            }),
            final(self).timings.namespace_lock_wait@ == saturating_sum(
                old(self).timings.namespace_lock_wait@,
                namespace_wait@,
            ),
    {
        self.timings.namespace_lock_wait = self.timings.namespace_lock_wait.saturating_add(
            namespace_wait,
        );
        self.timings.publication = elapsed;
        self.stage = CommitStage::Published;
    }

    /// The outcome of a committed transaction.
    pub fn finish(
        &self,
        materialization: Duration,
        maintenance: Option<ArtifactCacheMaintenance>,
        maintenance_time: Option<Duration>,
        total: Duration,
    ) -> (outcome: ArtifactCacheOutcome)
        requires
            self.wf(),
            self.stage is Published,
        ensures
            outcome is Built,
            ({
                let record = outcome_record(outcome);
                &&& record.key == self.resolved.key
                &&& record.input_digest == self.resolved.input_digest
                &&& are_artifacts_of(record.artifacts@, self.spec@.outputs)
                &&& description_violation(self.spec@) is None ==> names_ascend(record.artifacts@)
                &&& record.maintenance == maintenance
                &&& record.timings == (ArtifactCacheTimings {
                    materialization,
                    maintenance: maintenance_time,
                    total,
                    ..self.timings
                })
            }),
            timed_as_it_went(outcome),
    {
        let mut timings = self.timings;
        timings.materialization = materialization;
        timings.maintenance = maintenance_time;
        timings.total = total;
        ArtifactCacheOutcome::Built(cache_record(&self.spec, self.resolved, timings, maintenance))
    }

    /// The error of a failed commit, once its staging directory was removed or could not be.
    ///
    /// `removal` is `None` when nothing was left to remove.
    pub fn commit_failed(
        &self,
        transaction_error: ArtifactCacheError,
        removal: Option<Result<(), String>>,
    ) -> (error: ArtifactCacheError)
        ensures
            match removal {
                Some(Err(cause)) => {
                    &&& error matches ArtifactCacheError::FailedTransactionCleanup {
                        transaction_error: kept,
                        path,
                        source,
                    }
                    &&& *kept == transaction_error
                    &&& path@ == self.staging_directory@
                    &&& source == cause
                },
                _ => error == transaction_error,
            },
    {
        match removal {
            Some(Err(source)) => ArtifactCacheError::FailedTransactionCleanup {
                transaction_error: Box::new(transaction_error),
                path: copy_bytes(self.staging_directory.as_slice()),
                source,
            },
            _ => transaction_error,
        }
    }

    /// What abandoning the transaction returns, once its staging directory was removed or could
    /// not be.
    pub fn abort(&self, removal: Result<(), String>) -> (result: Result<(), ArtifactCacheError>)
        ensures
            match removal {
                Ok(()) => result is Ok,
                Err(cause) => result matches Err(error) && is_io(
                    error,
                    "abort artifact cache transaction"@,
                    self.staging_directory@,
                    cause@,
                ),
            },
    {
        match removal {
            Ok(()) => Ok(()),
            Err(source) => Err(
                io_failure(
                    "abort artifact cache transaction",
                    copy_bytes(self.staging_directory.as_slice()),
                    source,
                ),
            ),
        }
    }
}

} // verus!

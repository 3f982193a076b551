//! Batches of independent Wasm builds.
//!
//! A [`WasmBuildBatch`] runs its entries one after another and keeps every
//! result. Its caller performs each acquisition that the batch asks for.

use vstd::prelude::*;
use vstd::string::*;
use crate::batch::{check_batch_labels, first_fault, first_position, positions, LabelFault};
use crate::paths::{paths_equal, same_path};
use crate::settings::copy_bytes;
use crate::text::{decimal, decimal_text, texts};
use crate::timing::{duration_text, Duration};
use crate::tree::byte_strings;
use crate::wasm_cache::acquire::{outcome_record, timings_text, WasmBuildOutcome};
use crate::wasm_cache::error::{invalid_spec, WasmBuildError};
use crate::wasm_cache::progress::{
    is_zero_resolution, is_zero_timings, timings_sum, unobserved_phase, PhaseLog,
    WasmBuildFailurePhase, WasmBuildFailureTimings, WasmBuildProgressEvent, WasmBuildTimings,
};
use crate::wasm_cache::session::{
    snapshot_index, WasmBuildBatchInputMetrics, WasmBuildInputSnapshotState, WasmBuildSessionState,
};
use crate::wasm_cache::shared::SharedIncrementalTargetMaintenanceOutcome;
use crate::wasm_cache::spec::{
    CacheModeView, SharedIncrementalTargetMaintenanceConfig, SharedIncrementalTargetPrunePolicy,
    SharedIncrementalTargetMaintenanceFailureMode, WasmBuildCacheMode, WasmBuildSpec,
    WasmBuildSpecView,
};

verus! {

/// One build of a batch under a stable label.
///
/// Labels are reporting identity only and never affect cache keys.
#[derive(Debug)]
pub struct LabeledWasmBuildSpec {
    /// Stable label.
    pub label: String,
    /// The build.
    pub spec: WasmBuildSpec,
}

impl LabeledWasmBuildSpec {
    /// Label a build.
    pub fn new(label: &str, spec: WasmBuildSpec) -> (labeled: Self)
        ensures
            labeled.label@ == label@,
            labeled.spec == spec,
    {
        LabeledWasmBuildSpec { label: label.to_owned(), spec }
    }

    /// Stable label.
    pub fn label(&self) -> (label: &str)
        ensures
            label@ == self.label@,
    {
        self.label.as_str()
    }

    /// The build.
    pub fn spec(&self) -> (spec: &WasmBuildSpec)
        ensures
            *spec == self.spec,
    {
        &self.spec
    }
}

/// Labels of a list of builds.
pub open spec fn build_labels(specs: Seq<LabeledWasmBuildSpec>) -> Seq<Seq<char>> {
    specs.map_values(|entry: LabeledWasmBuildSpec| entry.label@)
}

/// Why a batch is rejected before any of its work starts.
#[derive(Debug)]
pub enum WasmBuildBatchContractError {
    /// An entry has an empty label.
    EmptyLabel {
        /// Position of the entry.
        index: usize,
    },
    /// Two entries share a label.
    DuplicateLabel {
        /// The shared label.
        label: String,
        /// Position of the first entry with the label.
        first_index: usize,
        /// Position of the second entry with the label.
        duplicate_index: usize,
    },
    /// The sources of a session changed under their lease.
    SourceLeaseInvalidated,
    /// A prepared snapshot does not know an entry.
    SpecificationNotPrepared {
        /// Position of the entry.
        index: usize,
        /// Label of the entry.
        label: String,
    },
}

/// Whether an error says what is wrong with the label at `at`.
pub open spec fn is_label_error(
    error: WasmBuildBatchContractError,
    labels: Seq<Seq<char>>,
    at: int,
) -> bool {
    if labels[at].len() == 0 {
        error matches WasmBuildBatchContractError::EmptyLabel { index } && index == at
    } else {
        &&& error matches WasmBuildBatchContractError::DuplicateLabel {
            label,
            first_index,
            duplicate_index,
        }
        &&& label@ == labels[at]
        &&& first_position(labels, labels[at], at) == Some(first_index as int)
        &&& duplicate_index == at
    }
}

/// Check that the labels of a batch are nonempty and unique.
pub fn validate_batch_labels(specs: &Vec<LabeledWasmBuildSpec>) -> (result: Result<
    (),
    WasmBuildBatchContractError,
>)
    ensures
        match (result, first_fault(build_labels(specs@), 0)) {
            (Ok(()), None) => true,
            (Err(error), Some(at)) => is_label_error(error, build_labels(specs@), at),
            _ => false,
        },
{
    let mut labels: Vec<String> = Vec::new();
    let ghost all = build_labels(specs@);
    let mut at: usize = 0;
    while at < specs.len()
        invariant
            at <= specs@.len(),
            all == build_labels(specs@),
            texts(labels@) == all.take(at as int),
        decreases specs.len() - at,
    {
        let ghost before = texts(labels@);
        labels.push(specs[at].label.clone());
        proof {
            assert(texts(labels@) =~= before.push(all[at as int]));
            assert(all.take(at + 1) =~= all.take(at as int).push(all[at as int]));
        }
        at = at + 1;
    }
    assert(all.take(at as int) =~= all);
    match check_batch_labels(&labels) {
        None => Ok(()),
        Some(LabelFault::Empty { index }) => Err(WasmBuildBatchContractError::EmptyLabel { index }),
        Some(LabelFault::Duplicate { label, first_index, duplicate_index }) => Err(
            WasmBuildBatchContractError::DuplicateLabel { label, first_index, duplicate_index },
        ),
    }
}

/// Check that a session may serve a batch.
pub fn validate_session(session: &WasmBuildSessionState) -> (result: Result<
    (),
    WasmBuildBatchContractError,
>)
    ensures
        result is Ok == !session.invalidated,
        result matches Err(error) ==> error is SourceLeaseInvalidated,
{
    if session.is_invalidated() {
        Err(WasmBuildBatchContractError::SourceLeaseInvalidated)
    } else {
        Ok(())
    }
}

/// Position of the first entry from `from` on that a snapshot does not know.
pub open spec fn first_unprepared(
    specs: Seq<LabeledWasmBuildSpec>,
    snapshot: WasmBuildInputSnapshotState,
    from: int,
) -> Option<int>
    decreases specs.len() - from,
{
    if from < 0 || from >= specs.len() {
        None
    } else if snapshot_index(snapshot.snapshots@, specs[from].spec@, 0) is Some {
        first_unprepared(specs, snapshot, from + 1)
    } else {
        Some(from)
    }
}

/// Check that a prepared snapshot may serve a batch: it is valid and knows every entry.
pub fn validate_prepared(
    specs: &Vec<LabeledWasmBuildSpec>,
    snapshot: &WasmBuildInputSnapshotState,
    invalidated: bool,
) -> (result: Result<(), WasmBuildBatchContractError>)
    ensures
        match (result, first_unprepared(specs@, *snapshot, 0)) {
            (Ok(()), None) => !invalidated,
            (Err(WasmBuildBatchContractError::SourceLeaseInvalidated), _) => invalidated,
            (
                Err(WasmBuildBatchContractError::SpecificationNotPrepared { index, label }),
                Some(at),
            ) => !invalidated && index == at && label@ == specs@[at].label@,
            _ => false,
        },
{
    if invalidated {
        return Err(WasmBuildBatchContractError::SourceLeaseInvalidated);
    }
    let mut at: usize = 0;
    while at < specs.len()
        invariant
            at <= specs@.len(),
            !invalidated,
            first_unprepared(specs@, *snapshot, 0) == first_unprepared(
                specs@,
                *snapshot,
                at as int,
            ),
        decreases specs.len() - at,
    {
        if !snapshot.contains(&specs[at].spec) {
            return Err(
                WasmBuildBatchContractError::SpecificationNotPrepared {
                    index: at,
                    label: specs[at].label.clone(),
                },
            );
        }
        at = at + 1;
    }
    Ok(())
}

/// Orchestration shared by every entry in one independent Wasm build batch.
#[derive(Clone, Copy, Debug, PartialEq, Eq, Structural)]
pub struct WasmBuildBatchConfig {
    /// Batch-owned shared-target maintenance.
    pub shared_incremental_maintenance: Option<SharedIncrementalTargetMaintenanceConfig>,
}

impl Default for WasmBuildBatchConfig {
    fn default() -> (config: Self)
        ensures
            config.shared_incremental_maintenance is None,
    {
        WasmBuildBatchConfig { shared_incremental_maintenance: None }
    }
}

impl WasmBuildBatchConfig {
    /// Create batch orchestration without batch-owned target maintenance.
    pub fn new() -> (config: Self)
        ensures
            config.shared_incremental_maintenance is None,
    {
        WasmBuildBatchConfig { shared_incremental_maintenance: None }
    }

    /// Maintain each distinct shared target once through its first batch entry.
    pub fn with_shared_incremental_target_maintenance(
        self,
        config: SharedIncrementalTargetMaintenanceConfig,
    ) -> (batch: Self)
        ensures
            batch.shared_incremental_maintenance == Some(config),
    {
        WasmBuildBatchConfig { shared_incremental_maintenance: Some(config) }
    }

    /// Strictly maintain each distinct shared target at most once per interval.
    pub fn with_shared_incremental_target_maintenance_at_most_every(
        self,
        policy: SharedIncrementalTargetPrunePolicy,
        minimum_interval: Duration,
    ) -> (batch: Self)
        ensures
            batch.shared_incremental_maintenance == Some(
                SharedIncrementalTargetMaintenanceConfig {
                    policy,
                    minimum_interval,
                    failure_mode: SharedIncrementalTargetMaintenanceFailureMode::Strict,
                },
            ),
    {
        self.with_shared_incremental_target_maintenance(
            SharedIncrementalTargetMaintenanceConfig::new(policy, minimum_interval),
        )
    }

    /// Batch-owned shared-target maintenance, when configured.
    pub fn shared_incremental_target_maintenance(self) -> (config: Option<
        SharedIncrementalTargetMaintenanceConfig,
    >)
        ensures
            config == self.shared_incremental_maintenance,
    {
        self.shared_incremental_maintenance
    }
}

/// Structured progress for an independent sequence of exact Wasm builds.
#[derive(Debug)]
pub enum WasmBuildBatchProgressEvent {
    /// One independently resolved build specification is about to start.
    BuildStarted {
        /// Label of the entry.
        label: String,
        /// Zero-based position in the supplied specifications.
        index: usize,
        /// Total number of supplied specifications.
        total: usize,
    },
    /// Progress forwarded from one independent build.
    BuildProgress {
        /// Label of the entry.
        label: String,
        /// Zero-based position in the supplied specifications.
        index: usize,
        /// Event emitted by that build.
        event: WasmBuildProgressEvent,
    },
    /// One independent build completed successfully.
    BuildFinished {
        /// Label of the entry.
        label: String,
        /// Zero-based position in the supplied specifications.
        index: usize,
    },
    /// One independent build failed.
    BuildFailed {
        /// Label of the entry.
        label: String,
        /// Zero-based position in the supplied specifications.
        index: usize,
    },
}

/// Attachment of batch-owned maintenance to the first entry of each shared target.
#[derive(Debug)]
pub struct BatchMaintenanceTracker {
    config: Option<SharedIncrementalTargetMaintenanceConfig>,
    configured_targets: Vec<Vec<u8>>,
}

/// Whether a shared target is among those that were maintained already.
pub open spec fn is_configured(targets: Seq<Seq<u8>>, target: Seq<u8>) -> bool {
    exists|i: int| 0 <= i < targets.len() && same_path(#[trigger] targets[i], target)
}

impl BatchMaintenanceTracker {
    /// Batch-owned maintenance.
    pub closed spec fn config(&self) -> Option<SharedIncrementalTargetMaintenanceConfig> {
        self.config
    }

    /// Shared targets to which maintenance was attached already.
    pub closed spec fn targets(&self) -> Seq<Seq<u8>> {
        byte_strings(self.configured_targets@)
    }

    /// Start without any maintained target.
    pub fn new(config: Option<SharedIncrementalTargetMaintenanceConfig>) -> (tracker: Self)
        ensures
            tracker.config() == config,
            tracker.targets() == Seq::<Seq<u8>>::empty(),
    {
        let tracker = BatchMaintenanceTracker { config, configured_targets: Vec::new() };
        assert(tracker.targets() =~= Seq::<Seq<u8>>::empty());
        tracker
    }

    /// The specification with batch-owned maintenance, for the first entry of a shared target.
    pub fn prepare_spec(&mut self, spec: &WasmBuildSpec) -> (prepared: Option<WasmBuildSpec>)
        ensures
            final(self).config() == old(self).config(),
            match (old(self).config(), spec@.cache_mode) {
                (Some(config), CacheModeView::SharedIncremental(target)) => if is_configured(
                    old(self).targets(),
                    target,
                ) {
                    prepared is None && final(self).targets() == old(self).targets()
                } else {
                    &&& final(self).targets() == old(self).targets().push(target)
                    &&& prepared matches Some(found)
                    &&& found@ == (WasmBuildSpecView {
                        shared_incremental_maintenance: Some(config),
                        ..spec@
                    })
                },
                _ => prepared is None && final(self).targets() == old(self).targets(),
            },
    {
        let config = match self.config {
            Some(config) => config,
            None => {
                return None;
            },
        };
        let target = match spec.cache_mode() {
            WasmBuildCacheMode::SharedIncremental { target_dir } => target_dir,
            WasmBuildCacheMode::Isolated => {
                return None;
            },
        };
        let ghost targets = self.targets();
        let mut at: usize = 0;
        while at < self.configured_targets.len()
            invariant
                at <= self.configured_targets@.len(),
                self.config == old(self).config,
                self.configured_targets == old(self).configured_targets,
                targets == byte_strings(self.configured_targets@),
                targets == old(self).targets(),
                old(self).config() == Some(config),
                spec@.cache_mode == CacheModeView::SharedIncremental(target@),
                forall|i: int| 0 <= i < at ==> !same_path(#[trigger] targets[i], target@),
            decreases self.configured_targets.len() - at,
        {
            assert(targets[at as int] == self.configured_targets@[at as int]@);
            if paths_equal(self.configured_targets[at].as_slice(), target.as_slice()) {
                return None;
            }
            at = at + 1;
        }
        self.configured_targets.push(copy_bytes(target.as_slice()));
        assert(self.targets() =~= targets.push(target@));
        Some(spec.duplicate().with_shared_incremental_target_maintenance(config))
    }
}

/// Batch-owned maintenance goes to a shared target once: a target that was configured stays so, and
/// so does every path that names the same location.
pub proof fn lemma_target_is_configured_once(targets: Seq<Seq<u8>>, target: Seq<u8>, other: Seq<u8>)
    requires
        same_path(target, other),
    ensures
        is_configured(targets.push(target), other),
        forall|path: Seq<u8>| #[trigger]
            is_configured(targets, path) ==> is_configured(targets.push(target), path),
{
    let more = targets.push(target);
    assert(more[targets.len() as int] == target);
    assert forall|path: Seq<u8>| #[trigger] is_configured(targets, path) implies is_configured(
        more,
        path,
    ) by {
        let i = choose|i: int| 0 <= i < targets.len() && same_path(#[trigger] targets[i], path);
        assert(more[i] == targets[i]);
    }
}

/// Message for an entry that brings its own maintenance into a batch that owns it.
pub open spec fn ownership_message() -> Seq<char> {
    "batch-owned shared-target maintenance cannot be combined with per-spec maintenance"@
}

/// The error for an entry that brings its own maintenance into a batch that owns it.
pub fn batch_maintenance_ownership_error() -> (error: WasmBuildError)
    ensures
        error matches WasmBuildError::InvalidSpec { message } && message@ == ownership_message(),
{
    invalid_spec(
        "batch-owned shared-target maintenance cannot be combined with per-spec maintenance",
    )
}

/// Result of one entry, with the phase and timings of a failure.
#[derive(Debug)]
pub struct WasmBuildBatchAttempt {
    /// Outcome or failure.
    pub result: Result<WasmBuildOutcome, WasmBuildError>,
    /// Phase in which a failure occurred.
    pub failure_phase: Option<WasmBuildFailurePhase>,
    /// Phase timings of a failure.
    pub failure_timings: Option<WasmBuildFailureTimings>,
}

impl WasmBuildBatchAttempt {
    /// A failure has a phase and timings, and nothing else has.
    pub open spec fn wf(&self) -> bool {
        &&& self.failure_phase is Some == self.result is Err
        &&& self.failure_timings is Some == self.result is Err
    }

    /// An entry that was rejected before any work.
    pub fn invalid_spec(error: WasmBuildError, total: Duration) -> (attempt: Self)
        ensures
            attempt.wf(),
            attempt.result == Err::<WasmBuildOutcome, WasmBuildError>(error),
            attempt.failure_phase == Some(WasmBuildFailurePhase::Specification),
            attempt.failure_timings matches Some(timings) && timings.total == total
                && timings.exact_cache_coordination@ == 0
                && timings.shared_target_coordination is None && is_zero_resolution(
                timings.input_resolution,
            ) && timings.shared_target_maintenance is None && timings.cargo_build is None
                && timings.artifact_publication is None && timings.exact_cache_maintenance is None
                && timings.cleanup is None,
    {
        let mut timings = WasmBuildFailureTimings::default();
        timings.total = total;
        WasmBuildBatchAttempt {
            result: Err(error),
            failure_phase: Some(WasmBuildFailurePhase::Specification),
            failure_timings: Some(timings),
        }
    }
}

/// Result of one acquisition after `total` time, with the phase and timings of a failure.
pub fn batch_attempt(
    result: Result<WasmBuildOutcome, WasmBuildError>,
    log: &PhaseLog,
    total: Duration,
) -> (attempt: WasmBuildBatchAttempt)
    ensures
        attempt.wf(),
        attempt.result == result,
        result matches Err(error) ==> {
            &&& attempt.failure_phase == Some(
                match log.failure_phase {
                    Some(phase) => phase,
                    None => unobserved_phase(error),
                },
            )
            &&& attempt.failure_timings == Some(
                WasmBuildFailureTimings { total, ..log.failure_timings },
            )
        },
{
    let (failure_phase, failure_timings) = match &result {
        Ok(_) => (None, None),
        Err(error) => {
            let (phase, timings) = log.failure_details(error, total);
            (Some(phase), Some(timings))
        },
    };
    WasmBuildBatchAttempt { result, failure_phase, failure_timings }
}

/// The event before an entry is built.
pub fn started_event(label: &str, index: usize, total: usize) -> (event: WasmBuildBatchProgressEvent)
    ensures
        event matches WasmBuildBatchProgressEvent::BuildStarted {
            label: kept,
            index: at,
            total: count,
        } && kept@ == label@ && at == index && count == total,
{
    WasmBuildBatchProgressEvent::BuildStarted { label: label.to_owned(), index, total }
}

/// The event after an entry was attempted.
pub fn closing_event(label: &str, index: usize, attempt: &WasmBuildBatchAttempt) -> (event:
    WasmBuildBatchProgressEvent)
    ensures
        match attempt.result {
            Ok(_) => event matches WasmBuildBatchProgressEvent::BuildFinished {
                label: kept,
                index: at,
            } && kept@ == label@ && at == index,
            Err(_) => event matches WasmBuildBatchProgressEvent::BuildFailed {
                label: kept,
                index: at,
            } && kept@ == label@ && at == index,
        },
{
    match &attempt.result {
        Ok(_) => WasmBuildBatchProgressEvent::BuildFinished { label: label.to_owned(), index },
        Err(_) => WasmBuildBatchProgressEvent::BuildFailed { label: label.to_owned(), index },
    }
}

/// One entry of a batch report.
#[derive(Debug)]
pub struct WasmBuildBatchEntry {
    /// Zero-based position in the supplied specifications.
    pub index: usize,
    /// Label of the entry.
    pub label: String,
    /// Result of the entry.
    pub attempt: WasmBuildBatchAttempt,
    /// Wall-clock time of the entry.
    pub entry_elapsed: Duration,
}

impl WasmBuildBatchEntry {
    /// Zero-based position in the supplied specifications.
    pub fn index(&self) -> (index: usize)
        ensures
            index == self.index,
    {
        self.index
    }

    /// Label of the entry.
    pub fn label(&self) -> (label: &str)
        ensures
            label@ == self.label@,
    {
        self.label.as_str()
    }

    /// Outcome or failure of the entry.
    pub fn result(&self) -> (result: &Result<WasmBuildOutcome, WasmBuildError>)
        ensures
            *result == self.attempt.result,
    {
        &self.attempt.result
    }

    /// Wall-clock time of the entry.
    pub fn entry_elapsed(&self) -> (time: Duration)
        ensures
            time == self.entry_elapsed,
    {
        self.entry_elapsed
    }
}

/// A failed entry of a batch report.
#[derive(Debug)]
pub struct WasmBuildBatchFailure<'a> {
    /// The entry.
    pub entry: &'a WasmBuildBatchEntry,
    /// Its error.
    pub error: &'a WasmBuildError,
    /// Phase in which it failed.
    pub phase: WasmBuildFailurePhase,
    /// Its phase timings.
    pub timings: WasmBuildFailureTimings,
}

impl<'a> WasmBuildBatchFailure<'a> {
    /// Zero-based position in the supplied specifications.
    pub fn index(&self) -> (index: usize)
        ensures
            index == self.entry.index,
    {
        self.entry.index
    }

    /// Label of the entry.
    pub fn label(&self) -> (label: &str)
        ensures
            label@ == self.entry.label@,
    {
        self.entry.label.as_str()
    }

    /// The error.
    pub fn error(&self) -> (error: &WasmBuildError)
        ensures
            *error == *self.error,
    {
        self.error
    }

    /// Phase in which the entry failed.
    pub fn phase(&self) -> (phase: WasmBuildFailurePhase)
        ensures
            phase == self.phase,
    {
        self.phase
    }

    /// Partial phase timings.
    pub fn timings(&self) -> (timings: WasmBuildFailureTimings)
        ensures
            timings == self.timings,
    {
        self.timings
    }

    /// Wall-clock time of the entry.
    pub fn entry_elapsed(&self) -> (time: Duration)
        ensures
            time == self.entry.entry_elapsed,
    {
        self.entry.entry_elapsed
    }
}

/// A successful entry of a batch report.
#[derive(Debug)]
pub struct WasmBuildBatchOutcomeEntry<'a> {
    /// The entry.
    pub entry: &'a WasmBuildBatchEntry,
    /// Its outcome.
    pub outcome: &'a WasmBuildOutcome,
}

/// A shared-target maintenance outcome of a batch report.
#[derive(Debug)]
pub struct WasmBuildBatchMaintenanceEntry<'a> {
    /// The entry.
    pub entry: &'a WasmBuildBatchEntry,
    /// What maintenance came to.
    pub outcome: &'a SharedIncrementalTargetMaintenanceOutcome,
}

/// Results of a list of entries.
pub open spec fn entry_results(entries: Seq<WasmBuildBatchEntry>) -> Seq<
    Result<WasmBuildOutcome, WasmBuildError>,
> {
    entries.map_values(|entry: WasmBuildBatchEntry| entry.attempt.result)
}

/// Positions of the entries among the first `upto` that report shared-target maintenance.
pub open spec fn maintained_positions(entries: Seq<WasmBuildBatchEntry>, upto: int) -> Seq<int>
    decreases upto,
{
    if upto <= 0 {
        seq![]
    } else if entries[upto - 1].attempt.result matches Ok(outcome) && outcome_record(
        outcome,
    ).shared_incremental_maintenance is Some {
        maintained_positions(entries, upto - 1).push(upto - 1)
    } else {
        maintained_positions(entries, upto - 1)
    }
}

/// How many of the first `upto` entries reused exact artifacts.
pub open spec fn reused_count(results: Seq<Result<WasmBuildOutcome, WasmBuildError>>, upto: int) -> nat
    decreases upto,
{
    if upto <= 0 {
        0
    } else {
        reused_count(results, upto - 1) + if results[upto - 1] matches Ok(outcome)
            && outcome is Reused {
            1nat
        } else {
            0nat
        }
    }
}

/// Whether `total` sums the timings of the successes among the first `upto` results.
pub open spec fn is_timing_total(
    results: Seq<Result<WasmBuildOutcome, WasmBuildError>>,
    upto: int,
    total: WasmBuildTimings,
) -> bool
    decreases upto,
{
    if upto <= 0 {
        is_zero_timings(total)
    } else {
        match results[upto - 1] {
            Err(_) => is_timing_total(results, upto - 1, total),
            Ok(outcome) => exists|before: WasmBuildTimings|
                is_timing_total(results, upto - 1, before) && #[trigger] timings_sum(
                    before,
                    outcome_record(outcome).timings,
                    total,
                ),
        }
    }
}

/// Aggregate counters and successful-acquisition timings for a Wasm build batch.
#[derive(Clone, Copy, Debug, PartialEq, Eq, Structural)]
pub struct WasmBuildBatchMetrics {
    /// Number of supplied specifications.
    pub specifications: usize,
    /// Number of successful specifications.
    pub succeeded: usize,
    /// Number of failed specifications.
    pub failed: usize,
    /// Number of newly built Wasm artifact sets.
    pub built: usize,
    /// Number of Wasm artifact sets reused from the exact cache.
    pub reused: usize,
    /// Input resolution of the batch.
    pub input_resolution: WasmBuildBatchInputMetrics,
    /// Sum of timings from successful acquisitions.
    pub successful_timings: WasmBuildTimings,
    /// Complete wall-clock time for the sequential batch.
    pub total: Duration,
}

impl WasmBuildBatchMetrics {
    /// Number of supplied specifications.
    pub fn specifications(self) -> (count: usize)
        ensures
            count == self.specifications,
    {
        self.specifications
    }

    /// Number of successful specifications.
    pub fn succeeded(self) -> (count: usize)
        ensures
            count == self.succeeded,
    {
        self.succeeded
    }

    /// Number of failed specifications.
    pub fn failed(self) -> (count: usize)
        ensures
            count == self.failed,
    {
        self.failed
    }

    /// Number of newly built Wasm artifact sets.
    pub fn built(self) -> (count: usize)
        ensures
            count == self.built,
    {
        self.built
    }

    /// Number of Wasm artifact sets reused from the exact cache.
    pub fn reused(self) -> (count: usize)
        ensures
            count == self.reused,
    {
        self.reused
    }

    /// Number of workspace and toolchain input-resolution snapshots performed.
    pub fn input_resolution_runs(self) -> (count: usize)
        ensures
            count == self.input_resolution.runs,
    {
        self.input_resolution.runs
    }

    /// Number of specifications resolved by reusing another batch snapshot.
    pub fn input_resolution_reuses(self) -> (count: usize)
        ensures
            count == self.input_resolution.reuses,
    {
        self.input_resolution.reuses
    }

    /// Number of specifications served by an explicit session.
    pub fn input_resolution_session_reuses(self) -> (count: usize)
        ensures
            count == self.input_resolution.session_reuses,
    {
        self.input_resolution.session_reuses
    }

    /// Number of specifications served by a prepared snapshot.
    pub fn input_resolution_prepared_reuses(self) -> (count: usize)
        ensures
            count == self.input_resolution.prepared_reuses,
    {
        self.input_resolution.prepared_reuses
    }

    /// Sum of timings from successful acquisitions.
    pub fn successful_timings(self) -> (timings: WasmBuildTimings)
        ensures
            timings == self.successful_timings,
    {
        self.successful_timings
    }

    /// Complete wall-clock time for the sequential batch.
    pub fn total(self) -> (time: Duration)
        ensures
            time == self.total,
    {
        self.total
    }
}

/// Ordered outcomes and failures from a collect-all Wasm build batch.
#[derive(Debug)]
pub struct WasmBuildBatchReport {
    /// Entries in the supplied order.
    pub entries: Vec<WasmBuildBatchEntry>,
    /// Input resolution of the batch.
    pub input_resolution: WasmBuildBatchInputMetrics,
    /// Complete wall-clock time.
    pub total: Duration,
}

/// Metrics as text.
pub open spec fn metrics_text(metrics: WasmBuildBatchMetrics) -> Seq<char> {
    "builds="@ + decimal(metrics.specifications as nat) + " succeeded="@ + decimal(
        metrics.succeeded as nat,
    ) + " failed="@ + decimal(metrics.failed as nat) + " built="@ + decimal(metrics.built as nat)
        + " reused="@ + decimal(metrics.reused as nat) + " input_resolution_runs="@ + decimal(
        metrics.input_resolution.runs as nat,
    ) + " input_resolution_reuses="@ + decimal(metrics.input_resolution.reuses as nat)
        + " successful_timings=("@ + timings_text(metrics.successful_timings) + ") total="@
        + duration_text(metrics.total@)
}

/// Whether metrics are those of a report.
pub open spec fn are_metrics_of(
    metrics: WasmBuildBatchMetrics,
    report: WasmBuildBatchReport,
) -> bool {
    let results = entry_results(report.entries@);
    let count = results.len() as int;
    &&& metrics.specifications == count
    &&& metrics.succeeded == positions(results, true, count).len()
    &&& metrics.failed == positions(results, false, count).len()
    &&& metrics.reused == reused_count(results, count)
    &&& metrics.built == metrics.succeeded - metrics.reused
    &&& metrics.input_resolution == report.input_resolution
    &&& is_timing_total(results, count, metrics.successful_timings)
    &&& metrics.total == report.total
}

impl WasmBuildBatchReport {
    /// Whether every entry stands at its own index and carries failure details exactly when it
    /// failed.
    pub open spec fn wf(&self) -> bool {
        forall|i: int|
            0 <= i < self.entries@.len() ==> (#[trigger] self.entries@[i]).index == i
                && self.entries@[i].attempt.wf()
    }

    /// Entries in the supplied order.
    pub fn entries(&self) -> (entries: &Vec<WasmBuildBatchEntry>)
        ensures
            *entries == self.entries,
    {
        &self.entries
    }

    /// Per-specification results in the supplied order.
    pub fn results(&self) -> (results: Vec<&Result<WasmBuildOutcome, WasmBuildError>>)
        ensures
            results@.len() == self.entries@.len(),
            forall|i: int|
                0 <= i < self.entries@.len() ==> *(#[trigger] results@[i])
                    == self.entries@[i].attempt.result,
    {
        let mut results: Vec<&Result<WasmBuildOutcome, WasmBuildError>> = Vec::new();
        let mut at: usize = 0;
        while at < self.entries.len()
            invariant
                at <= self.entries@.len(),
                results@.len() == at,
                forall|i: int|
                    0 <= i < at ==> *(#[trigger] results@[i]) == self.entries@[i].attempt.result,
            decreases self.entries.len() - at,
        {
            results.push(&self.entries[at].attempt.result);
            at = at + 1;
        }
        results
    }

    /// Consume the report and return its ordered per-specification results.
    pub fn into_results(self) -> (results: Vec<Result<WasmBuildOutcome, WasmBuildError>>)
        ensures
            results@ == entry_results(self.entries@),
    {
        let ghost all = entry_results(self.entries@);
        let mut results: Vec<Result<WasmBuildOutcome, WasmBuildError>> = Vec::new();
        let mut rest = self.entries;
        let ghost mut taken: int = 0;
        while rest.len() > 0
            invariant
                0 <= taken <= all.len(),
                all == entry_results(self.entries@),
                rest@ == self.entries@.skip(taken),
                results@ == all.take(taken),
            decreases rest.len(),
        {
            let entry = rest.remove(0);
            assert(entry == self.entries@[taken]);
            results.push(entry.attempt.result);
            proof {
                assert(all.take(taken + 1) =~= all.take(taken).push(all[taken]));
                assert(rest@ =~= self.entries@.skip(taken + 1));
                taken = taken + 1;
            }
        }
        assert(all.take(taken) =~= all);
        results
    }

    /// Wall-clock time retained for every entry, including failed entries.
    pub fn entry_elapsed(&self) -> (times: Vec<Duration>)
        ensures
            times@ == self.entries@.map_values(|entry: WasmBuildBatchEntry| entry.entry_elapsed),
    {
        let ghost all = self.entries@.map_values(|entry: WasmBuildBatchEntry| entry.entry_elapsed);
        let mut times: Vec<Duration> = Vec::new();
        let mut at: usize = 0;
        while at < self.entries.len()
            invariant
                at <= self.entries@.len(),
                all == self.entries@.map_values(
                    |entry: WasmBuildBatchEntry| entry.entry_elapsed,
                ),
                times@ == all.take(at as int),
            decreases self.entries.len() - at,
        {
            times.push(self.entries[at].entry_elapsed);
            assert(all.take(at + 1) =~= all.take(at as int).push(all[at as int]));
            at = at + 1;
        }
        assert(all.take(at as int) =~= all);
        times
    }

    /// Successful entries, in order.
    pub fn outcomes(&self) -> (outcomes: Vec<WasmBuildBatchOutcomeEntry<'_>>)
        ensures
            ({
                let results = entry_results(self.entries@);
                let places = positions(results, true, results.len() as int);
                &&& outcomes@.len() == places.len()
                &&& forall|k: int|
                    0 <= k < places.len() ==> *(#[trigger] outcomes@[k]).entry
                        == self.entries@[places[k]] && results[places[k]] is Ok
                        && *outcomes@[k].outcome == results[places[k]]->Ok_0
            }),
    {
        let ghost results = entry_results(self.entries@);
        let mut outcomes: Vec<WasmBuildBatchOutcomeEntry<'_>> = Vec::new();
        let mut at: usize = 0;
        while at < self.entries.len()
            invariant
                at <= self.entries@.len(),
                results == entry_results(self.entries@),
                outcomes@.len() == positions(results, true, at as int).len(),
                forall|k: int|
                    0 <= k < outcomes@.len() ==> {
                        let place = positions(results, true, at as int)[k];
                        *(#[trigger] outcomes@[k]).entry == self.entries@[place]
                            && results[place] is Ok && *outcomes@[k].outcome
                            == results[place]->Ok_0
                    },
            decreases self.entries.len() - at,
        {
            let entry = &self.entries[at];
            assert(results[at as int] == entry.attempt.result);
            if let Ok(outcome) = &entry.attempt.result {
                outcomes.push(WasmBuildBatchOutcomeEntry { entry, outcome });
            }
            at = at + 1;
        }
        outcomes
    }

    /// Failed entries, in order.
    pub fn failures(&self) -> (failures: Vec<WasmBuildBatchFailure<'_>>)
        requires
            self.wf(),
        ensures
            ({
                let results = entry_results(self.entries@);
                let places = positions(results, false, results.len() as int);
                &&& failures@.len() == places.len()
                &&& forall|k: int|
                    0 <= k < places.len() ==> {
                        let entry = self.entries@[places[k]];
                        &&& *(#[trigger] failures@[k]).entry == entry
                        &&& entry.attempt.result == Err::<WasmBuildOutcome, WasmBuildError>(
                            *failures@[k].error,
                        )
                        &&& entry.attempt.failure_phase == Some(failures@[k].phase)
                        &&& entry.attempt.failure_timings == Some(failures@[k].timings)
                    }
            }),
    {
        let ghost results = entry_results(self.entries@);
        let mut failures: Vec<WasmBuildBatchFailure<'_>> = Vec::new();
        let mut at: usize = 0;
        while at < self.entries.len()
            invariant
                at <= self.entries@.len(),
                self.wf(),
                results == entry_results(self.entries@),
                failures@.len() == positions(results, false, at as int).len(),
                forall|k: int|
                    0 <= k < failures@.len() ==> {
                        let entry = self.entries@[positions(results, false, at as int)[k]];
                        &&& *(#[trigger] failures@[k]).entry == entry
                        &&& entry.attempt.result == Err::<WasmBuildOutcome, WasmBuildError>(
                            *failures@[k].error,
                        )
                        &&& entry.attempt.failure_phase == Some(failures@[k].phase)
                        &&& entry.attempt.failure_timings == Some(failures@[k].timings)
                    },
            decreases self.entries.len() - at,
        {
            let entry = &self.entries[at];
            assert(results[at as int] == entry.attempt.result);
            assert(self.entries@[at as int].attempt.wf());
            if let Err(error) = &entry.attempt.result {
                if let (Some(phase), Some(timings)) = (
                    entry.attempt.failure_phase,
                    entry.attempt.failure_timings,
                ) {
                    failures.push(WasmBuildBatchFailure { entry, error, phase, timings });
                }
            }
            at = at + 1;
        }
        failures
    }

    /// Integrated shared-target maintenance outcomes, in order.
    ///
    /// Batch-owned maintenance contributes at most one outcome for each
    /// distinct configured shared-target path.
    pub fn shared_incremental_maintenance_outcomes(&self) -> (outcomes: Vec<
        WasmBuildBatchMaintenanceEntry<'_>,
    >)
        ensures
            ({
                let places = maintained_positions(self.entries@, self.entries@.len() as int);
                &&& outcomes@.len() == places.len()
                &&& forall|k: int|
                    0 <= k < places.len() ==> {
                        let entry = self.entries@[places[k]];
                        &&& *(#[trigger] outcomes@[k]).entry == entry
                        &&& entry.attempt.result is Ok
                        &&& outcome_record(
                            entry.attempt.result->Ok_0,
                        ).shared_incremental_maintenance == Some(*outcomes@[k].outcome)
                    }
            }),
    {
        let mut outcomes: Vec<WasmBuildBatchMaintenanceEntry<'_>> = Vec::new();
        let mut at: usize = 0;
        while at < self.entries.len()
            invariant
                at <= self.entries@.len(),
                outcomes@.len() == maintained_positions(self.entries@, at as int).len(),
                forall|k: int|
                    0 <= k < outcomes@.len() ==> {
                        let entry = self.entries@[maintained_positions(
                            self.entries@,
                            at as int,
                        )[k]];
                        &&& *(#[trigger] outcomes@[k]).entry == entry
                        &&& entry.attempt.result is Ok
                        &&& outcome_record(
                            entry.attempt.result->Ok_0,
                        ).shared_incremental_maintenance == Some(*outcomes@[k].outcome)
                    },
            decreases self.entries.len() - at,
        {
            let entry = &self.entries[at];
            if let Ok(outcome) = &entry.attempt.result {
                if let Some(maintenance) = outcome.record().shared_incremental_maintenance() {
                    outcomes.push(WasmBuildBatchMaintenanceEntry { entry, outcome: maintenance });
                }
            }
            at = at + 1;
        }
        outcomes
    }

    /// Complete wall-clock time for the sequential collect-all batch.
    pub fn total(&self) -> (time: Duration)
        ensures
            time == self.total,
    {
        self.total
    }

    /// Whether every specification completed successfully.
    pub fn is_success(&self) -> (success: bool)
        ensures
            success == forall|i: int|
                0 <= i < self.entries@.len() ==> (#[trigger] self.entries@[i]).attempt.result is Ok,
    {
        let mut at: usize = 0;
        while at < self.entries.len()
            invariant
                at <= self.entries@.len(),
                forall|i: int|
                    0 <= i < at ==> (#[trigger] self.entries@[i]).attempt.result is Ok,
            decreases self.entries.len() - at,
        {
            if self.entries[at].attempt.result.is_err() {
                return false;
            }
            at = at + 1;
        }
        true
    }

    /// Aggregate outcome, input-resolution reuse, and timing counters.
    pub fn metrics(&self) -> (metrics: WasmBuildBatchMetrics)
        ensures
            are_metrics_of(metrics, *self),
    {
        let ghost results = entry_results(self.entries@);
        let mut succeeded: usize = 0;
        let mut failed: usize = 0;
        let mut built: usize = 0;
        let mut reused: usize = 0;
        let mut timings = WasmBuildTimings::default();
        let mut at: usize = 0;
        while at < self.entries.len()
            invariant
                at <= self.entries@.len(),
                results == entry_results(self.entries@),
                succeeded + failed == at,
                built + reused == succeeded,
                succeeded == positions(results, true, at as int).len(),
                failed == positions(results, false, at as int).len(),
                reused == reused_count(results, at as int),
                is_timing_total(results, at as int, timings),
            decreases self.entries.len() - at,
        {
            assert(results[at as int] == self.entries@[at as int].attempt.result);
            match &self.entries[at].attempt.result {
                Ok(outcome) => {
                    succeeded = succeeded + 1;
                    if outcome.is_reused() {
                        reused = reused + 1;
                    } else {
                        built = built + 1;
                    }
                    let ghost before = timings;
                    timings = timings.saturating_add(outcome.record().timings());
                    assert(timings_sum(before, outcome_record(*outcome).timings, timings));
                },
                Err(_) => {
                    failed = failed + 1;
                },
            }
            at = at + 1;
        }
        WasmBuildBatchMetrics {
            specifications: self.entries.len(),
            succeeded,
            failed,
            built,
            reused,
            input_resolution: self.input_resolution,
            successful_timings: timings,
            total: self.total,
        }
    }

    /// The report as one line of text.
    pub fn render(&self) -> (text: String)
        ensures
            exists|metrics: WasmBuildBatchMetrics|
                are_metrics_of(metrics, *self) && text@ == #[trigger] metrics_text(metrics),
    {
        let metrics = self.metrics();
        let mut text = "builds=".to_owned();
        text.append(decimal_text(metrics.specifications as u128).as_str());
        text.append(" succeeded=");
        text.append(decimal_text(metrics.succeeded as u128).as_str());
        text.append(" failed=");
        text.append(decimal_text(metrics.failed as u128).as_str());
        text.append(" built=");
        text.append(decimal_text(metrics.built as u128).as_str());
        text.append(" reused=");
        text.append(decimal_text(metrics.reused as u128).as_str());
        text.append(" input_resolution_runs=");
        text.append(decimal_text(metrics.input_resolution.runs as u128).as_str());
        text.append(" input_resolution_reuses=");
        text.append(decimal_text(metrics.input_resolution.reuses as u128).as_str());
        text.append(" successful_timings=(");
        text.append(metrics.successful_timings.render().as_str());
        text.append(") total=");
        text.append(metrics.total.render().as_str());
        assert(text@ =~= metrics_text(metrics));
        text
    }
}

/// What a batch does for its next entry.
#[derive(Debug)]
pub enum BatchStep {
    /// Acquire this specification and record the attempt.
    Build(WasmBuildSpec),
    /// Record this error without any work.
    Reject(WasmBuildError),
}

/// A sequential batch of independent builds.
#[derive(Debug)]
pub struct WasmBuildBatch {
    config: WasmBuildBatchConfig,
    tracker: BatchMaintenanceTracker,
    entries: Vec<WasmBuildBatchEntry>,
}

impl WasmBuildBatch {
    /// Batch-owned maintenance.
    pub closed spec fn maintenance(&self) -> Option<SharedIncrementalTargetMaintenanceConfig> {
        self.config.shared_incremental_maintenance
    }

    /// Shared targets to which maintenance was attached already.
    pub closed spec fn maintained(&self) -> Seq<Seq<u8>> {
        self.tracker.targets()
    }

    /// Entries recorded so far.
    pub closed spec fn entries(&self) -> Seq<WasmBuildBatchEntry> {
        self.entries@
    }

    /// Whether the entries stand at their indexes and the tracker follows the configuration.
    pub closed spec fn wf(&self) -> bool {
        &&& self.tracker.config() == self.config.shared_incremental_maintenance
        &&& forall|i: int|
            0 <= i < self.entries@.len() ==> (#[trigger] self.entries@[i]).index == i
                && self.entries@[i].attempt.wf()
    }

    /// Start a batch whose labels are nonempty and unique.
    pub fn begin(specs: &Vec<LabeledWasmBuildSpec>, config: WasmBuildBatchConfig) -> (result: Result<
        Self,
        WasmBuildBatchContractError,
    >)
        ensures
            match (result, first_fault(build_labels(specs@), 0)) {
                (Ok(batch), None) => {
                    &&& batch.wf()
                    &&& batch.maintenance() == config.shared_incremental_maintenance
                    &&& batch.maintained() == Seq::<Seq<u8>>::empty()
                    &&& batch.entries() == Seq::<WasmBuildBatchEntry>::empty()
                },
                (Err(error), Some(at)) => is_label_error(error, build_labels(specs@), at),
                _ => false,
            },
    {
        validate_batch_labels(specs)?;
        Ok(
            WasmBuildBatch {
                config,
                tracker: BatchMaintenanceTracker::new(config.shared_incremental_maintenance),
                entries: Vec::new(),
            },
        )
    }

    /// What to do for the next entry.
    ///
    /// An entry that brings its own maintenance into a batch that owns it is
    /// rejected; batch-owned maintenance goes to the first entry of each
    /// shared target.
    pub fn step(&mut self, spec: &WasmBuildSpec) -> (step: BatchStep)
        requires
            old(self).wf(),
        ensures
            final(self).wf(),
            final(self).maintenance() == old(self).maintenance(),
            final(self).entries() == old(self).entries(),
            if old(self).maintenance() is Some && spec@.shared_incremental_maintenance is Some {
                &&& final(self).maintained() == old(self).maintained()
                &&& step matches BatchStep::Reject(WasmBuildError::InvalidSpec { message })
                &&& message@ == ownership_message()
            } else {
                match (old(self).maintenance(), spec@.cache_mode) {
                    (Some(config), CacheModeView::SharedIncremental(target)) if !is_configured(
                        old(self).maintained(),
                        target,
                    ) => {
                        &&& final(self).maintained() == old(self).maintained().push(target)
                        &&& step matches BatchStep::Build(prepared)
                        &&& prepared@ == (WasmBuildSpecView {
                            shared_incremental_maintenance: Some(config),
                            ..spec@
                        })
                    },
                    _ => {
                        &&& final(self).maintained() == old(self).maintained()
                        &&& step matches BatchStep::Build(prepared)
                        &&& prepared@ == spec@
                    },
                }
            },
    {
        if self.config.shared_incremental_maintenance.is_some()
            && spec.shared_incremental_target_maintenance().is_some() {
            return BatchStep::Reject(batch_maintenance_ownership_error());
        }
        match self.tracker.prepare_spec(spec) {
            Some(prepared) => BatchStep::Build(prepared),
            None => BatchStep::Build(spec.duplicate()),
        }
    }

    /// Keep the result of the next entry.
    pub fn record(&mut self, label: &str, attempt: WasmBuildBatchAttempt, elapsed: Duration)
        requires
            old(self).wf(),
            attempt.wf(),
        ensures
            final(self).wf(),
            final(self).maintenance() == old(self).maintenance(),
            final(self).maintained() == old(self).maintained(),
            final(self).entries().len() == old(self).entries().len() + 1,
            final(self).entries().drop_last() == old(self).entries(),
            final(self).entries().last().label@ == label@,
            final(self).entries().last().attempt == attempt,
            final(self).entries().last().entry_elapsed == elapsed,
    {
        let index = self.entries.len();
        self.entries.push(
            WasmBuildBatchEntry { index, label: label.to_owned(), attempt, entry_elapsed: elapsed },
        );
        assert(self.entries().drop_last() =~= old(self).entries());
    }

    /// The report of the batch.
    pub fn finish(
        self,
        input_resolution: WasmBuildBatchInputMetrics,
        total: Duration,
    ) -> (report: WasmBuildBatchReport)
        requires
            self.wf(),
        ensures
            report.wf(),
            report.entries@ == self.entries(),
            report.input_resolution == input_resolution,
            report.total == total,
    {
        WasmBuildBatchReport { entries: self.entries, input_resolution, total }
    }
}

} // verus!

//! Acquisition of exact Wasm artifacts: the order of locks, lookups, builds and publication.
//!
//! [`Acquisition`] and [`CacheMissBuild`] decide what happens next; their
//! caller takes the locks, runs Cargo and moves the files.

use vstd::prelude::*;
use vstd::string::*;
use super::error::WasmBuildError;
use super::identity::{
    artifact_matches, artifact_paths, artifact_set_matches, cache_entry_directory, cache_entry_path,
    expected_artifacts, missing_artifacts, missing_of, ArtifactState,
};
use super::inputs::ResolvedCargoBuildInputs;
use super::progress::{
    phase_recorded, resolution_sum, PhaseLog, WasmBuildFailurePhase, WasmBuildProgressEvent,
    WasmBuildProgressOutcome, WasmBuildTimings, WasmInputResolutionTimings,
};
use super::shared::{outcome_text, SharedIncrementalTargetMaintenanceOutcome};
use super::spec::{WasmBuildCacheMode, WasmBuildSpec, WasmBuildSpecView};
use crate::cache_fs::ArtifactCacheMaintenance;
use crate::digest::{hex, InputDigest};
use crate::paths::{paths_equal, same_path};
use crate::settings::copy_bytes;
use crate::text::{decimal, decimal_text};
use crate::timing::{
    duration_text, optional_duration_text, render_optional, saturating_sum, Duration,
};
use crate::tree::byte_strings;

verus! {

/// Details shared by built and reused Wasm outcomes.
#[derive(Debug)]
pub struct WasmBuildRecord {
    /// Exact build fingerprint used by the atomic cache stamp.
    pub fingerprint: InputDigest,
    /// Semantic digest of selected package sources and configuration inputs.
    pub input_digest: InputDigest,
    /// Immutable content-addressed cache directory for this exact build.
    pub exact_cache_path: Vec<u8>,
    /// Expected Wasm artifacts produced or reused by the build.
    pub artifacts: Vec<Vec<u8>>,
    /// Phase timings captured by the cacheable build operation.
    pub timings: WasmBuildTimings,
    /// Cache maintenance attempted under the build lock, when configured.
    pub maintenance: Option<ArtifactCacheMaintenance>,
    /// Scheduled caller-owned shared-target maintenance, when configured.
    pub shared_incremental_maintenance: Option<SharedIncrementalTargetMaintenanceOutcome>,
}

impl WasmBuildRecord {
    /// Exact build fingerprint used by the atomic cache stamp.
    pub fn fingerprint(&self) -> (digest: InputDigest)
        ensures
            digest == self.fingerprint,
    {
        self.fingerprint
    }

    /// Semantic digest of selected package sources and configuration inputs.
    pub fn input_digest(&self) -> (digest: InputDigest)
        ensures
            digest == self.input_digest,
    {
        self.input_digest
    }

    /// Immutable content-addressed cache directory for this exact build.
    pub fn exact_cache_path(&self) -> (path: &[u8])
        ensures
            path@ == self.exact_cache_path@,
    {
        self.exact_cache_path.as_slice()
    }

    /// Expected Wasm artifacts produced or reused by the build.
    pub fn artifacts(&self) -> (paths: &Vec<Vec<u8>>)
        ensures
            *paths == self.artifacts,
    {
        &self.artifacts
    }

    /// Phase timings captured by the cacheable build operation.
    pub fn timings(&self) -> (timings: WasmBuildTimings)
        ensures
            timings == self.timings,
    {
        self.timings
    }

    /// Cache maintenance attempted under the build lock, when configured.
    pub fn maintenance(&self) -> (maintenance: Option<&ArtifactCacheMaintenance>)
        ensures
            maintenance == match &self.maintenance {
                Some(found) => Some(found),
                None => None,
            },
    {
        self.maintenance.as_ref()
    }

    /// Scheduled caller-owned shared-target maintenance, when configured.
    pub fn shared_incremental_maintenance(&self) -> (outcome: Option<
        &SharedIncrementalTargetMaintenanceOutcome,
    >)
        ensures
            outcome == match &self.shared_incremental_maintenance {
                Some(found) => Some(found),
                None => None,
            },
    {
        self.shared_incremental_maintenance.as_ref()
    }
}

/// Whether a cacheable Wasm build ran Cargo or reused exact matching artifacts.
#[derive(Debug)]
pub enum WasmBuildOutcome {
    /// Cargo ran and a new successful stamp was published.
    Built(WasmBuildRecord),
    /// Existing artifacts and their content-addressed stamp matched exactly.
    Reused(WasmBuildRecord),
}

/// The record of an outcome.
pub open spec fn outcome_record(outcome: WasmBuildOutcome) -> WasmBuildRecord {
    match outcome {
        WasmBuildOutcome::Built(record) => record,
        WasmBuildOutcome::Reused(record) => record,
    }
}

/// Timings as one line of text.
pub open spec fn timings_text(timings: WasmBuildTimings) -> Seq<char> {
    "total="@ + duration_text(timings.total@) + " lock="@ + duration_text(timings.lock_wait@)
        + " shared_lock="@ + optional_duration_text(timings.shared_incremental_lock_wait)
        + " inputs="@ + duration_text(timings.input_resolution.total@) + " cargo="@
        + optional_duration_text(timings.cargo_build) + " maintenance="@ + optional_duration_text(
        timings.cache_maintenance,
    )
}

/// An outcome as one line of text.
pub open spec fn build_outcome_text(outcome: WasmBuildOutcome) -> Seq<char> {
    let record = outcome_record(outcome);
    (if outcome is Reused {
        "reused"@
    } else {
        "built"@
    }) + " fingerprint="@ + hex(record.fingerprint@) + " artifacts="@ + decimal(
        record.artifacts@.len(),
    ) + " "@ + timings_text(record.timings) + (match record.shared_incremental_maintenance {
        Some(maintenance) => " shared_maintenance=("@ + outcome_text(maintenance) + ")"@,
        None => ""@,
    })
}

impl WasmBuildTimings {
    /// The timings as one line of text.
    pub fn render(self) -> (text: String)
        ensures
            text@ == timings_text(self),
    {
        let mut text = "total=".to_owned();
        text.append(self.total.render().as_str());
        text.append(" lock=");
        text.append(self.lock_wait.render().as_str());
        text.append(" shared_lock=");
        text.append(render_optional(self.shared_incremental_lock_wait).as_str());
        text.append(" inputs=");
        text.append(self.input_resolution.total.render().as_str());
        text.append(" cargo=");
        text.append(render_optional(self.cargo_build).as_str());
        text.append(" maintenance=");
        text.append(render_optional(self.cache_maintenance).as_str());
        text
    }
}

impl WasmBuildOutcome {
    /// Read the common build record.
    pub fn record(&self) -> (record: &WasmBuildRecord)
        ensures
            *record == outcome_record(*self),
    {
        match self {
            WasmBuildOutcome::Built(record) | WasmBuildOutcome::Reused(record) => record,
        }
    }

    /// Report whether exact matching artifacts were reused.
    pub fn is_reused(&self) -> (reused: bool)
        ensures
            reused == (*self is Reused),
    {
        match self {
            WasmBuildOutcome::Reused(_) => true,
            WasmBuildOutcome::Built(_) => false,
        }
    }

    /// The outcome as one line of text.
    pub fn render(&self) -> (text: String)
        ensures
            text@ == build_outcome_text(*self),
    {
        let record = self.record();
        let mut text = if self.is_reused() {
            "reused".to_owned()
        } else {
            "built".to_owned()
        };
        text.append(" fingerprint=");
        text.append(record.fingerprint.to_hex().as_str());
        text.append(" artifacts=");
        text.append(decimal_text(record.artifacts.len() as u128).as_str());
        text.append(" ");
        text.append(record.timings.render().as_str());
        match &record.shared_incremental_maintenance {
            Some(maintenance) => {
                text.append(" shared_maintenance=(");
                text.append(maintenance.render().as_str());
                text.append(")");
            },
            None => {
                text.append("");
            },
        }
        assert(text@ =~= build_outcome_text(*self));
        text
    }

    /// The events that end a successful acquisition: a hit is announced before the end.
    pub fn finished_events(&self) -> (events: Vec<WasmBuildProgressEvent>)
        ensures
            ({
                let record = outcome_record(*self);
                events@ == if *self is Reused {
                    seq![
                        WasmBuildProgressEvent::CacheHit { fingerprint: record.fingerprint },
                        WasmBuildProgressEvent::Finished {
                            outcome: WasmBuildProgressOutcome::Reused,
                            fingerprint: record.fingerprint,
                            elapsed: record.timings.total,
                        },
                    ]
                } else {
                    seq![
                        WasmBuildProgressEvent::Finished {
                            outcome: WasmBuildProgressOutcome::Built,
                            fingerprint: record.fingerprint,
                            elapsed: record.timings.total,
                        },
                    ]
                }
            }),
    {
        let record = self.record();
        let mut events: Vec<WasmBuildProgressEvent> = Vec::new();
        let outcome = if self.is_reused() {
            events.push(WasmBuildProgressEvent::CacheHit { fingerprint: record.fingerprint });
            WasmBuildProgressOutcome::Reused
        } else {
            WasmBuildProgressOutcome::Built
        };
        events.push(
            WasmBuildProgressEvent::Finished {
                outcome,
                fingerprint: record.fingerprint,
                elapsed: record.timings.total,
            },
        );
        events
    }
}

/// The event that announces a completed input resolution.
pub fn resolved_event(resolved: &ResolvedCargoBuildInputs) -> (event: WasmBuildProgressEvent)
    ensures
        event == (WasmBuildProgressEvent::InputsResolved {
            fingerprint: resolved.fingerprint,
            input_digest: resolved.input_digest,
            elapsed: resolved.timings.total,
        }),
{
    WasmBuildProgressEvent::InputsResolved {
        fingerprint: resolved.fingerprint,
        input_digest: resolved.input_digest,
        elapsed: resolved.timings.total,
    }
}

/// What an acquisition waits for.
#[derive(Clone, Copy, Debug, PartialEq, Eq, Structural)]
pub enum AcquisitionStage {
    /// The lock of the shared Cargo target.
    SharedLock,
    /// The lock of the exact cache.
    ExactLock,
    /// A resolution of the inputs.
    Resolve,
    /// Scheduled maintenance of the shared target.
    Maintain,
    /// A lookup of the exact artifacts.
    Lookup,
    /// A Cargo build.
    Build,
    /// Nothing: exact artifacts were reused.
    Reused,
}

/// The shared Cargo target while its lock is held.
#[derive(Debug)]
pub struct SharedHold {
    /// Canonical path of the shared target.
    pub target: Vec<u8>,
    /// Time spent waiting for its lock.
    pub wait: Duration,
}

/// One acquisition of exact artifacts.
#[derive(Debug)]
pub struct Acquisition {
    /// What the acquisition waits for.
    pub stage: AcquisitionStage,
    /// Whether misses are built in a shared Cargo target.
    pub shared_mode: bool,
    /// Whether maintenance of the shared target is scheduled.
    pub scheduled: bool,
    /// Whether the sources are leased and need no second resolution.
    pub immutable_sources: bool,
    /// Whether the lock of the exact cache is held.
    pub exact_held: bool,
    /// Whether a lookup has missed.
    pub missed: bool,
    /// Time spent waiting for the lock of the exact cache.
    pub lock_wait: Duration,
    /// The shared target, while its lock is held.
    pub shared: Option<SharedHold>,
    /// Result of scheduled maintenance.
    pub maintenance: Option<SharedIncrementalTargetMaintenanceOutcome>,
    /// Latest resolution of the inputs.
    pub resolved: Option<ResolvedCargoBuildInputs>,
}

impl Acquisition {
    /// What holds of an acquisition at every stage.
    ///
    /// Everything that reads or writes the exact cache happens under its lock.
    /// The lock of the shared target is never awaited while the lock of the
    /// exact cache is held. A build in a shared target holds both locks, and
    /// scheduled maintenance comes before every lookup. Without scheduled
    /// maintenance the shared target is left alone until a lookup has missed.
    pub open spec fn wf(&self) -> bool {
        &&& self.scheduled ==> self.shared_mode
        &&& self.shared is Some ==> self.shared_mode
        &&& !self.scheduled && (self.shared is Some || self.stage is SharedLock) ==> self.missed
        &&& match self.stage {
            AcquisitionStage::SharedLock => {
                &&& !self.exact_held
                &&& self.shared is None
                &&& self.shared_mode
                &&& self.scheduled == (self.resolved is None)
            },
            AcquisitionStage::ExactLock => {
                &&& !self.exact_held
                &&& self.scheduled ==> self.shared is Some && self.resolved is None
                &&& !self.scheduled ==> self.shared is Some == self.resolved is Some
            },
            AcquisitionStage::Resolve => {
                &&& self.exact_held
                &&& self.scheduled ==> self.shared is Some && self.resolved is None
                &&& !self.scheduled ==> self.shared is Some == self.resolved is Some
            },
            AcquisitionStage::Maintain => {
                &&& self.exact_held
                &&& self.scheduled
                &&& self.shared is Some
                &&& self.resolved is Some
            },
            AcquisitionStage::Lookup => {
                &&& self.exact_held
                &&& self.resolved is Some
                &&& self.scheduled ==> self.shared is Some && self.maintenance is Some
            },
            AcquisitionStage::Build => {
                &&& self.exact_held
                &&& self.resolved is Some
                &&& self.shared_mode == (self.shared is Some)
                &&& self.scheduled ==> self.maintenance is Some
            },
            AcquisitionStage::Reused => self.exact_held && self.resolved is Some,
        }
    }

    /// Start an acquisition: with scheduled maintenance the shared target comes first.
    pub fn begin(spec: &WasmBuildSpec, immutable_sources: bool) -> (acquisition: Self)
        requires
            super::identity::spec_violation(spec@) is None,
        ensures
            acquisition.wf(),
            acquisition.scheduled == spec@.shared_incremental_maintenance is Some,
            acquisition.shared_mode == (spec@.cache_mode is SharedIncremental),
            acquisition.immutable_sources == immutable_sources,
            acquisition.stage == if spec@.shared_incremental_maintenance is Some {
                AcquisitionStage::SharedLock
            } else {
                AcquisitionStage::ExactLock
            },
            acquisition.lock_wait@ == 0,
            !acquisition.missed,
            acquisition.shared is None,
            acquisition.maintenance is None,
            acquisition.resolved is None,
    {
        let scheduled = spec.shared_incremental_target_maintenance().is_some();
        let shared_mode = match spec.cache_mode() {
            WasmBuildCacheMode::SharedIncremental { .. } => true,
            WasmBuildCacheMode::Isolated => false,
        };
        Acquisition {
            stage: if scheduled {
                AcquisitionStage::SharedLock
            } else {
                AcquisitionStage::ExactLock
            },
            shared_mode,
            scheduled,
            immutable_sources,
            exact_held: false,
            missed: false,
            lock_wait: Duration::zero(),
            shared: None,
            maintenance: None,
            resolved: None,
        }
    }

    /// The lock of the shared target was acquired.
    pub fn shared_locked(&mut self, target: Vec<u8>, wait: Duration)
        requires
            old(self).wf(),
            old(self).stage is SharedLock,
        ensures
            final(self).wf(),
            *final(self) == (Acquisition {
                stage: AcquisitionStage::ExactLock,
                shared: Some(SharedHold { target, wait }),
                ..*old(self)
            }),
    {
        self.shared = Some(SharedHold { target, wait });
        self.stage = AcquisitionStage::ExactLock;
    }

    /// The lock of the exact cache was acquired.
    ///
    /// Inputs that were resolved before the lock are resolved again, unless
    /// the sources are leased.
    pub fn exact_locked(&mut self, wait: Duration)
        requires
            old(self).wf(),
            old(self).stage is ExactLock,
        ensures
            final(self).wf(),
            final(self).lock_wait@ == saturating_sum(old(self).lock_wait@, wait@),
            *final(self) == (Acquisition {
                stage: if old(self).resolved is Some && old(self).immutable_sources {
                    AcquisitionStage::Lookup
                } else {
                    AcquisitionStage::Resolve
                },
                exact_held: true,
                lock_wait: final(self).lock_wait,
                ..*old(self)
            }),
    {
        self.lock_wait = self.lock_wait.saturating_add(wait);
        self.exact_held = true;
        self.stage = if self.resolved.is_some() && self.immutable_sources {
            AcquisitionStage::Lookup
        } else {
            AcquisitionStage::Resolve
        };
    }

    /// The inputs were resolved; the time of an earlier resolution is added.
    pub fn inputs_resolved(&mut self, resolved: ResolvedCargoBuildInputs)
        requires
            old(self).wf(),
            old(self).stage is Resolve,
        ensures
            final(self).wf(),
            final(self).resolved matches Some(kept) && {
                &&& kept.fingerprint == resolved.fingerprint
                &&& kept.input_digest == resolved.input_digest
                &&& kept.validation_digest == resolved.validation_digest
                &&& kept.inputs == resolved.inputs
                &&& kept.exclusions == resolved.exclusions
                &&& match old(self).resolved {
                    Some(earlier) => resolution_sum(
                        resolved.timings,
                        earlier.timings,
                        kept.timings,
                    ),
                    None => kept.timings == resolved.timings,
                }
            },
            *final(self) == (Acquisition {
                stage: if old(self).scheduled {
                    AcquisitionStage::Maintain
                } else {
                    AcquisitionStage::Lookup
                },
                resolved: final(self).resolved,
                ..*old(self)
            }),
    {
        let mut resolved = resolved;
        if let Some(earlier) = &self.resolved {
            let mut timings = resolved.timings;
            timings.include_timings(earlier.timings);
            resolved.timings = timings;
        }
        self.resolved = Some(resolved);
        self.stage = if self.scheduled {
            AcquisitionStage::Maintain
        } else {
            AcquisitionStage::Lookup
        };
    }

    /// Scheduled maintenance is done.
    pub fn maintained(&mut self, outcome: SharedIncrementalTargetMaintenanceOutcome)
        requires
            old(self).wf(),
            old(self).stage is Maintain,
        ensures
            final(self).wf(),
            *final(self) == (Acquisition {
                stage: AcquisitionStage::Lookup,
                maintenance: Some(outcome),
                ..*old(self)
            }),
    {
        self.maintenance = Some(outcome);
        self.stage = AcquisitionStage::Lookup;
    }

    /// The exact artifacts were looked up.
    ///
    /// A miss is built at once, or, when the build needs a shared target that
    /// is not locked yet, after both locks have been taken in their order and
    /// the lookup has been repeated.
    pub fn looked_up(&mut self, hit: bool)
        requires
            old(self).wf(),
            old(self).stage is Lookup,
        ensures
            final(self).wf(),
            *final(self) == if hit {
                Acquisition { stage: AcquisitionStage::Reused, ..*old(self) }
            } else if old(self).shared_mode && old(self).shared is None {
                Acquisition {
                    stage: AcquisitionStage::SharedLock,
                    exact_held: false,
                    missed: true,
                    ..*old(self)
                }
            } else {
                Acquisition { stage: AcquisitionStage::Build, missed: true, ..*old(self) }
            },
    {
        if hit {
            self.stage = AcquisitionStage::Reused;
        } else if self.shared_mode && self.shared.is_none() {
            self.missed = true;
            self.exact_held = false;
            self.stage = AcquisitionStage::SharedLock;
        } else {
            self.missed = true;
            self.stage = AcquisitionStage::Build;
        }
    }

    /// Where Cargo builds: in the shared target, else in the exact cache entry.
    pub fn cargo_target(&self, spec: &WasmBuildSpec) -> (target: Vec<u8>)
        requires
            self.wf(),
            self.stage is Build,
        ensures
            target@ == match self.shared {
                Some(hold) => hold.target@,
                None => cache_entry_path(spec@.target_dir, self.resolved->0.fingerprint@),
            },
    {
        match (&self.shared, &self.resolved) {
            (Some(hold), _) => copy_bytes(hold.target.as_slice()),
            (None, Some(resolved)) => cache_entry_directory(spec, resolved.fingerprint),
            (None, None) => Vec::new(),
        }
    }
}

/// How exact artifacts can be reused.
#[derive(Clone, Copy, Debug, PartialEq, Eq, Structural)]
pub enum ReusePlan {
    /// The published artifacts and the cache entry match; the use has to be recorded.
    Published,
    /// The published artifacts match, and the cache entry is made anew from them.
    Restored,
    /// The cache entry matches and is materialized.
    Cached,
    /// Nothing matches.
    Miss,
}

/// Whether every artifact matches a build.
pub open spec fn all_match(states: Seq<ArtifactState>, fingerprint: Seq<u8>) -> bool {
    forall|i: int| 0 <= i < states.len() ==> artifact_matches(#[trigger] states[i], fingerprint)
}

/// Decide how exact artifacts can be reused.
///
/// `invalidated` says whether a prepared input snapshot was invalidated, when
/// there is one; nothing is reused under an invalidated snapshot.
pub fn plan_reuse(
    published: &Vec<ArtifactState>,
    cached: &Vec<ArtifactState>,
    fingerprint: InputDigest,
    invalidated: Option<bool>,
) -> (result: Result<ReusePlan, WasmBuildError>)
    ensures
        result matches Err(error) ==> error is PreparedInputSnapshotInvalidated,
        result is Err == (invalidated == Some(true)),
        result matches Ok(plan) ==> plan == match (
            all_match(published@, fingerprint@),
            all_match(cached@, fingerprint@),
        ) {
            (true, true) => ReusePlan::Published,
            (true, false) => ReusePlan::Restored,
            (false, true) => ReusePlan::Cached,
            (false, false) => ReusePlan::Miss,
        },
{
    if let Some(invalid) = invalidated {
        if invalid {
            return Err(WasmBuildError::PreparedInputSnapshotInvalidated);
        }
    }
    let entry_matches = artifact_set_matches(cached, fingerprint);
    if artifact_set_matches(published, fingerprint) {
        if entry_matches {
            Ok(ReusePlan::Published)
        } else {
            Ok(ReusePlan::Restored)
        }
    } else if entry_matches {
        Ok(ReusePlan::Cached)
    } else {
        Ok(ReusePlan::Miss)
    }
}

/// Everything that a record takes over from an acquisition.
#[derive(Debug)]
pub struct BuildRecordInput {
    /// Time spent on an actual Cargo build.
    pub cargo_build: Option<Duration>,
    /// Time spent on the resolution of the inputs.
    pub input_resolution: WasmInputResolutionTimings,
    /// Result of exact-cache maintenance, when one was attempted.
    pub maintenance: Option<ArtifactCacheMaintenance>,
    /// Time spent on exact-cache maintenance, when one was configured.
    pub cache_maintenance: Option<Duration>,
    /// Time since the acquisition started.
    pub total: Duration,
}

/// Whether a record says what an acquisition came to.
pub open spec fn is_record_of(
    record: WasmBuildRecord,
    spec: WasmBuildSpecView,
    acquisition: Acquisition,
    input: BuildRecordInput,
) -> bool {
    &&& record.fingerprint == acquisition.resolved->0.fingerprint
    &&& record.input_digest == acquisition.resolved->0.input_digest
    &&& record.exact_cache_path@ == cache_entry_path(
        spec.target_dir,
        acquisition.resolved->0.fingerprint@,
    )
    &&& byte_strings(record.artifacts@) == artifact_paths(spec, spec.target_dir)
    &&& record.timings == (WasmBuildTimings {
        lock_wait: acquisition.lock_wait,
        shared_incremental_lock_wait: match acquisition.shared {
            Some(hold) => Some(hold.wait),
            None => None,
        },
        input_resolution: input.input_resolution,
        cargo_build: input.cargo_build,
        cache_maintenance: input.cache_maintenance,
        total: input.total,
    })
    &&& record.maintenance == input.maintenance
    &&& record.shared_incremental_maintenance == acquisition.maintenance
}

/// Whether a build time is known of what Cargo built, and of nothing else.
pub open spec fn timed_as_it_went(outcome: WasmBuildOutcome) -> bool {
    outcome_record(outcome).timings.cargo_build is None <==> outcome is Reused
}

/// Put together the record of a finished acquisition.
pub fn complete_build_record(
    spec: &WasmBuildSpec,
    acquisition: Acquisition,
    input: BuildRecordInput,
) -> (record: WasmBuildRecord)
    requires
        acquisition.wf(),
        acquisition.resolved is Some,
    ensures
        is_record_of(record, spec@, acquisition, input),
{
    let (fingerprint, input_digest) = match &acquisition.resolved {
        Some(resolved) => (resolved.fingerprint, resolved.input_digest),
        None => (InputDigest::from_bytes([0;32]), InputDigest::from_bytes([0;32])),
    };
    let exact_cache_path = cache_entry_directory(spec, fingerprint);
    let artifacts = expected_artifacts(spec, spec.target_dir());
    let shared_incremental_lock_wait = match &acquisition.shared {
        Some(hold) => Some(hold.wait),
        None => None,
    };
    WasmBuildRecord {
        fingerprint,
        input_digest,
        exact_cache_path,
        artifacts,
        timings: WasmBuildTimings {
            lock_wait: acquisition.lock_wait,
            shared_incremental_lock_wait,
            input_resolution: input.input_resolution,
            cargo_build: input.cargo_build,
            cache_maintenance: input.cache_maintenance,
            total: input.total,
        },
        maintenance: input.maintenance,
        shared_incremental_maintenance: acquisition.maintenance,
    }
}

/// How far the build of a cache miss has come.
#[derive(Clone, Copy, Debug, PartialEq, Eq, Structural)]
pub enum CacheMissStage {
    /// Cargo has to run.
    Cargo,
    /// The produced artifacts have to be inspected.
    Inspect,
    /// The inputs have to be resolved again.
    Verify,
    /// The prepared snapshot has to be checked.
    Permit,
    /// The artifacts may be published.
    Publish,
}

/// The build of a cache miss, from Cargo to publication.
#[derive(Debug)]
pub struct CacheMissBuild {
    /// How far the build has come.
    pub stage: CacheMissStage,
    /// Exact fingerprint before the build.
    pub fingerprint: InputDigest,
    /// Conservative digest of the inputs before the build.
    pub validation_digest: InputDigest,
    /// Fingerprint and conservative digest after the build.
    pub verified: Option<(InputDigest, InputDigest)>,
    /// Time spent on the resolution of the inputs.
    pub input_resolution: WasmInputResolutionTimings,
    /// Time that Cargo took.
    pub cargo_build: Option<Duration>,
}

impl CacheMissBuild {
    /// What holds at every stage: artifacts may be published only for inputs that were the same
    /// before and after the build.
    pub open spec fn wf(&self) -> bool {
        &&& (self.stage is Permit || self.stage is Publish) ==> {
            &&& self.verified matches Some((fingerprint, validation))
            &&& fingerprint@ == self.fingerprint@
            &&& validation@ == self.validation_digest@
        }
        &&& !(self.stage is Cargo) ==> self.cargo_build is Some
    }

    /// Start with the inputs that missed.
    pub fn begin(resolved: &ResolvedCargoBuildInputs) -> (build: Self)
        ensures
            build.wf(),
            build == (CacheMissBuild {
                stage: CacheMissStage::Cargo,
                fingerprint: resolved.fingerprint,
                validation_digest: resolved.validation_digest,
                verified: None,
                input_resolution: resolved.timings,
                cargo_build: None,
            }),
    {
        CacheMissBuild {
            stage: CacheMissStage::Cargo,
            fingerprint: resolved.fingerprint,
            validation_digest: resolved.validation_digest,
            verified: None,
            input_resolution: resolved.timings,
            cargo_build: None,
        }
    }

    /// Cargo succeeded after `elapsed`.
    pub fn cargo_succeeded(&mut self, elapsed: Duration)
        requires
            old(self).wf(),
            old(self).stage is Cargo,
        ensures
            final(self).wf(),
            *final(self) == (CacheMissBuild {
                stage: CacheMissStage::Inspect,
                cargo_build: Some(elapsed),
                ..*old(self)
            }),
    {
        self.cargo_build = Some(elapsed);
        self.stage = CacheMissStage::Inspect;
    }

    /// The produced artifacts were inspected; every one has to be a nonempty file.
    pub fn artifacts_inspected(
        &mut self,
        paths: &Vec<Vec<u8>>,
        states: &Vec<ArtifactState>,
    ) -> (result: Result<(), WasmBuildError>)
        requires
            old(self).wf(),
            old(self).stage is Inspect,
            paths@.len() == states@.len(),
        ensures
            final(self).wf(),
            ({
                let missing = missing_of(byte_strings(paths@), states@);
                match result {
                    Ok(()) => missing.len() == 0 && *final(self) == (CacheMissBuild {
                        stage: CacheMissStage::Verify,
                        ..*old(self)
                    }),
                    Err(error) => {
                        &&& missing.len() > 0
                        &&& error matches WasmBuildError::MissingArtifacts { paths: found }
                            && byte_strings(found@) == missing
                        &&& *final(self) == *old(self)
                    },
                }
            }),
    {
        let missing = missing_artifacts(paths, states);
        assert(byte_strings(missing@).len() == missing@.len());
        if missing.len() > 0 {
            return Err(WasmBuildError::MissingArtifacts { paths: missing });
        }
        self.stage = CacheMissStage::Verify;
        Ok(())
    }

    /// The inputs were resolved again; they have to be what they were before the build.
    pub fn inputs_verified(&mut self, verified: &ResolvedCargoBuildInputs) -> (result: Result<
        (),
        WasmBuildError,
    >)
        requires
            old(self).wf(),
            old(self).stage is Verify,
        ensures
            final(self).wf(),
            resolution_sum(
                old(self).input_resolution,
                verified.timings,
                final(self).input_resolution,
            ),
            match result {
                Ok(()) => {
                    &&& verified.validation_digest@ == old(self).validation_digest@
                    &&& verified.fingerprint@ == old(self).fingerprint@
                    &&& *final(self) == (CacheMissBuild {
                        stage: CacheMissStage::Permit,
                        verified: Some((verified.fingerprint, verified.validation_digest)),
                        input_resolution: final(self).input_resolution,
                        ..*old(self)
                    })
                },
                Err(error) => {
                    &&& error matches WasmBuildError::InputsChangedDuringBuild { before, after }
                    &&& if verified.validation_digest@ != old(self).validation_digest@ {
                        before == old(self).validation_digest && after == verified.validation_digest
                    } else {
                        &&& verified.fingerprint@ != old(self).fingerprint@
                        &&& before == old(self).fingerprint
                        &&& after == verified.fingerprint
                    }
                    &&& *final(self) == (CacheMissBuild {
                        input_resolution: final(self).input_resolution,
                        ..*old(self)
                    })
                },
            },
    {
        let mut input_resolution = self.input_resolution;
        input_resolution.include_timings(verified.timings);
        self.input_resolution = input_resolution;
        if self.validation_digest != verified.validation_digest {
            return Err(
                WasmBuildError::InputsChangedDuringBuild {
                    before: self.validation_digest,
                    after: verified.validation_digest,
                },
            );
        }
        if self.fingerprint != verified.fingerprint {
            return Err(
                WasmBuildError::InputsChangedDuringBuild {
                    before: self.fingerprint,
                    after: verified.fingerprint,
                },
            );
        }
        self.verified = Some((verified.fingerprint, verified.validation_digest));
        self.stage = CacheMissStage::Permit;
        Ok(())
    }

    /// Nothing is published under an invalidated prepared snapshot.
    pub fn permit_publication(&mut self, invalidated: Option<bool>) -> (result: Result<
        (),
        WasmBuildError,
    >)
        requires
            old(self).wf(),
            old(self).stage is Permit,
        ensures
            final(self).wf(),
            match result {
                Ok(()) => invalidated != Some(true) && *final(self) == (CacheMissBuild {
                    stage: CacheMissStage::Publish,
                    ..*old(self)
                }),
                Err(error) => {
                    &&& invalidated == Some(true)
                    &&& error is PreparedInputSnapshotInvalidated
                    &&& *final(self) == *old(self)
                },
            },
    {
        if let Some(invalid) = invalidated {
            if invalid {
                return Err(WasmBuildError::PreparedInputSnapshotInvalidated);
            }
        }
        self.stage = CacheMissStage::Publish;
        Ok(())
    }

    /// Whether the produced artifacts have to be copied into the cache entry first.
    pub fn needs_copy(cargo_target: &[u8], cache_entry: &[u8]) -> (copy: bool)
        ensures
            copy == !same_path(cargo_target@, cache_entry@),
    {
        !paths_equal(cargo_target, cache_entry)
    }
}

impl Acquisition {
    /// The outcome of a hit: no Cargo build took part in it.
    pub fn finish_reused(
        self,
        spec: &WasmBuildSpec,
        maintenance: Option<ArtifactCacheMaintenance>,
        cache_maintenance: Option<Duration>,
        total: Duration,
    ) -> (outcome: WasmBuildOutcome)
        requires
            self.wf(),
            self.stage is Reused,
        ensures
            outcome is Reused,
            timed_as_it_went(outcome),
            is_record_of(
                outcome_record(outcome),
                spec@,
                self,
                (BuildRecordInput {
                    cargo_build: None,
                    input_resolution: self.resolved->0.timings,
                    maintenance,
                    cache_maintenance,
                    total,
                }),
            ),
    {
        let input_resolution = match &self.resolved {
            Some(resolved) => resolved.timings,
            None => WasmInputResolutionTimings::default(),
        };
        let input = BuildRecordInput {
            cargo_build: None,
            input_resolution,
            maintenance,
            cache_maintenance,
            total,
        };
        WasmBuildOutcome::Reused(complete_build_record(spec, self, input))
    }

    /// The outcome of a miss whose artifacts were published.
    pub fn finish_built(
        self,
        spec: &WasmBuildSpec,
        build: &CacheMissBuild,
        maintenance: Option<ArtifactCacheMaintenance>,
        cache_maintenance: Option<Duration>,
        total: Duration,
    ) -> (outcome: WasmBuildOutcome)
        requires
            self.wf(),
            self.stage is Build,
            build.wf(),
            build.stage is Publish,
            build.fingerprint@ == self.resolved->0.fingerprint@,
        ensures
            outcome is Built,
            timed_as_it_went(outcome),
            is_record_of(
                outcome_record(outcome),
                spec@,
                self,
                (BuildRecordInput {
                    cargo_build: build.cargo_build,
                    input_resolution: build.input_resolution,
                    maintenance,
                    cache_maintenance,
                    total,
                }),
            ),
    {
        let input = BuildRecordInput {
            cargo_build: build.cargo_build,
            input_resolution: build.input_resolution,
            maintenance,
            cache_maintenance,
            total,
        };
        WasmBuildOutcome::Built(complete_build_record(spec, self, input))
    }
}

/// What a failed build leaves behind once its incomplete entry has been removed, or could not be.
///
/// A successful removal leaves the failure and its phase as they were.
pub fn cleanup_failed_fingerprint_build(
    build_error: WasmBuildError,
    path: &[u8],
    cleanup: Result<(), String>,
    log: &mut PhaseLog,
    elapsed: Duration,
) -> (error: WasmBuildError)
    ensures
        phase_recorded(
            old(log).failure_timings,
            WasmBuildFailurePhase::Cleanup,
            elapsed,
            final(log).failure_timings,
        ),
        match cleanup {
            Ok(()) => error == build_error && final(log).failure_phase == old(log).failure_phase,
            Err(cause) => {
                &&& final(log).failure_phase == Some(WasmBuildFailurePhase::Cleanup)
                &&& error matches WasmBuildError::FailedBuildCleanup {
                    build_error: kept,
                    path: found,
                    source,
                }
                &&& *kept == build_error
                &&& found@ == path@
                &&& source@ == cause@
            },
        },
{
    let primary = log.failure_phase;
    log.record_phase(WasmBuildFailurePhase::Cleanup, elapsed);
    match cleanup {
        Ok(()) => {
            log.restore_phase(primary);
            build_error
        },
        Err(source) => WasmBuildError::FailedBuildCleanup {
            build_error: Box::new(build_error),
            path: copy_bytes(path),
            source,
        },
    }
}

/// A failed build still says that its inputs changed after a failed cleanup.
pub proof fn lemma_cleanup_keeps_input_change(
    build_error: WasmBuildError,
    path: Vec<u8>,
    source: String,
)
    ensures
        super::error::is_input_change(
            WasmBuildError::FailedBuildCleanup { build_error: Box::new(build_error), path, source },
        ) == super::error::is_input_change(build_error),
{
    reveal_with_fuel(super::error::is_input_change, 2);
}

/// An acquisition without scheduled maintenance that hits before any miss never holds the shared
/// Cargo target, and never waits for it.
pub proof fn lemma_hit_leaves_shared_target_alone(acquisition: Acquisition)
    requires
        acquisition.wf(),
        !acquisition.scheduled,
        !acquisition.missed,
    ensures
        acquisition.shared is None,
        acquisition.stage !is SharedLock,
{
}

/// Whatever the mode, artifacts are built under the lock of the exact cache, and in a shared Cargo
/// target under its lock too.
pub proof fn lemma_builds_hold_their_locks(acquisition: Acquisition)
    requires
        acquisition.wf(),
        acquisition.stage is Build,
    ensures
        acquisition.exact_held,
        acquisition.shared_mode ==> acquisition.shared is Some,
{
}

} // verus!

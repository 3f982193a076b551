//! Phases, timings and progress of observed Wasm acquisitions.

use vstd::prelude::*;
use vstd::string::*;
use super::error::{WasmBuildError, WasmBuildPhase};
use super::shared::SharedIncrementalTargetMaintenanceOutcome;
use crate::digest::InputDigest;
use crate::timing::{optional_sum, saturating_add_optional_duration, saturating_sum, Duration};

verus! {

/// Detailed timings for exact Wasm build-input resolution.
#[derive(Clone, Copy, Debug, PartialEq, Eq, Structural)]
pub struct WasmInputResolutionTimings {
    /// Time spent reading Cargo and rustc identities.
    pub tool_identity: Duration,
    /// Time spent running and decoding `cargo metadata`.
    pub cargo_metadata: Duration,
    /// Time spent resolving packages, configuration, and watched paths.
    pub input_discovery: Duration,
    /// Time spent reading and hashing exact input contents.
    pub content_hashing: Duration,
    /// Complete input-resolution duration.
    pub total: Duration,
}

/// Timings for cache coordination, input resolution, and Cargo execution.
#[derive(Clone, Copy, Debug, PartialEq, Eq, Structural)]
pub struct WasmBuildTimings {
    /// Time spent waiting for the output-directory process lock.
    pub lock_wait: Duration,
    /// Time spent waiting for a shared incremental-target lock, when configured.
    pub shared_incremental_lock_wait: Option<Duration>,
    /// Detailed tool, metadata, discovery, and hashing timings.
    pub input_resolution: WasmInputResolutionTimings,
    /// Time spent in `cargo build`, or `None` for a cache hit.
    pub cargo_build: Option<Duration>,
    /// Time spent on configured best-effort cache maintenance.
    pub cache_maintenance: Option<Duration>,
    /// Total operation duration, including lock coordination.
    pub total: Duration,
}

/// Partial phase timings retained when a Wasm acquisition fails.
#[derive(Clone, Copy, Debug, PartialEq, Eq, Structural)]
pub struct WasmBuildFailureTimings {
    /// Time spent coordinating the exact artifact cache before failure.
    pub exact_cache_coordination: Duration,
    /// Time spent coordinating a shared incremental target, when reached.
    pub shared_target_coordination: Option<Duration>,
    /// Partial Cargo/rustc identity, metadata, discovery, and hashing timings.
    pub input_resolution: WasmInputResolutionTimings,
    /// Time spent on shared-target maintenance, when reached.
    pub shared_target_maintenance: Option<Duration>,
    /// Time spent executing Cargo, including an unsuccessful execution.
    pub cargo_build: Option<Duration>,
    /// Time spent validating or publishing artifacts, when reached.
    pub artifact_publication: Option<Duration>,
    /// Time spent on exact-cache maintenance, when reached.
    pub exact_cache_maintenance: Option<Duration>,
    /// Explicit incomplete-entry cleanup time, when failure required it.
    pub cleanup: Option<Duration>,
    /// Complete failed acquisition wall time.
    pub total: Duration,
}

/// Whether no time was spent on any part of input resolution.
pub open spec fn is_zero_resolution(timings: WasmInputResolutionTimings) -> bool {
    &&& timings.tool_identity@ == 0
    &&& timings.cargo_metadata@ == 0
    &&& timings.input_discovery@ == 0
    &&& timings.content_hashing@ == 0
    &&& timings.total@ == 0
}

impl Default for WasmInputResolutionTimings {
    fn default() -> (timings: Self)
        ensures
            timings.tool_identity@ == 0,
            timings.cargo_metadata@ == 0,
            timings.input_discovery@ == 0,
            timings.content_hashing@ == 0,
            timings.total@ == 0,
    {
        WasmInputResolutionTimings {
            tool_identity: Duration::zero(),
            cargo_metadata: Duration::zero(),
            input_discovery: Duration::zero(),
            content_hashing: Duration::zero(),
            total: Duration::zero(),
        }
    }
}

/// Whether no time was spent on any part of an acquisition.
pub open spec fn is_zero_timings(timings: WasmBuildTimings) -> bool {
    &&& timings.lock_wait@ == 0
    &&& timings.shared_incremental_lock_wait is None
    &&& is_zero_resolution(timings.input_resolution)
    &&& timings.cargo_build is None
    &&& timings.cache_maintenance is None
    &&& timings.total@ == 0
}

impl Default for WasmBuildTimings {
    fn default() -> (timings: Self)
        ensures
            is_zero_timings(timings),
    {
        WasmBuildTimings {
            lock_wait: Duration::zero(),
            shared_incremental_lock_wait: None,
            input_resolution: WasmInputResolutionTimings::default(),
            cargo_build: None,
            cache_maintenance: None,
            total: Duration::zero(),
        }
    }
}

impl Default for WasmBuildFailureTimings {
    fn default() -> (timings: Self)
        ensures
            timings.exact_cache_coordination@ == 0,
            timings.shared_target_coordination is None,
            is_zero_resolution(timings.input_resolution),
            timings.shared_target_maintenance is None,
            timings.cargo_build is None,
            timings.artifact_publication is None,
            timings.exact_cache_maintenance is None,
            timings.cleanup is None,
            timings.total@ == 0,
    {
        WasmBuildFailureTimings {
            exact_cache_coordination: Duration::zero(),
            shared_target_coordination: None,
            input_resolution: WasmInputResolutionTimings::default(),
            shared_target_maintenance: None,
            cargo_build: None,
            artifact_publication: None,
            exact_cache_maintenance: None,
            cleanup: None,
            total: Duration::zero(),
        }
    }
}

impl WasmInputResolutionTimings {
    /// Time spent reading Cargo and rustc identities.
    pub fn tool_identity(self) -> (value: Duration)
        ensures
            value == self.tool_identity,
    {
        self.tool_identity
    }

    /// Time spent running and decoding `cargo metadata`.
    pub fn cargo_metadata(self) -> (value: Duration)
        ensures
            value == self.cargo_metadata,
    {
        self.cargo_metadata
    }

    /// Time spent resolving packages, configuration, and watched paths.
    pub fn input_discovery(self) -> (value: Duration)
        ensures
            value == self.input_discovery,
    {
        self.input_discovery
    }

    /// Time spent reading and hashing exact input contents.
    pub fn content_hashing(self) -> (value: Duration)
        ensures
            value == self.content_hashing,
    {
        self.content_hashing
    }

    /// Complete input-resolution duration.
    pub fn total(self) -> (value: Duration)
        ensures
            value == self.total,
    {
        self.total
    }
}

impl WasmBuildTimings {
    /// Time spent waiting for the output-directory process lock.
    pub fn lock_wait(self) -> (value: Duration)
        ensures
            value == self.lock_wait,
    {
        self.lock_wait
    }

    /// Time spent waiting for a shared incremental-target lock, when configured.
    pub fn shared_incremental_lock_wait(self) -> (value: Option<Duration>)
        ensures
            value == self.shared_incremental_lock_wait,
    {
        self.shared_incremental_lock_wait
    }

    /// Detailed tool, metadata, discovery, and hashing timings.
    pub fn input_resolution(self) -> (value: WasmInputResolutionTimings)
        ensures
            value == self.input_resolution,
    {
        self.input_resolution
    }

    /// Time spent in `cargo build`, or `None` for a cache hit.
    pub fn cargo_build(self) -> (value: Option<Duration>)
        ensures
            value == self.cargo_build,
    {
        self.cargo_build
    }

    /// Time spent on configured best-effort cache maintenance.
    pub fn cache_maintenance(self) -> (value: Option<Duration>)
        ensures
            value == self.cache_maintenance,
    {
        self.cache_maintenance
    }

    /// Total operation duration, including lock coordination.
    pub fn total(self) -> (value: Duration)
        ensures
            value == self.total,
    {
        self.total
    }
}

impl WasmBuildFailureTimings {
    /// Time spent coordinating the exact artifact cache before failure.
    pub fn exact_cache_coordination(self) -> (value: Duration)
        ensures
            value == self.exact_cache_coordination,
    {
        self.exact_cache_coordination
    }

    /// Time spent coordinating a shared incremental target, when reached.
    pub fn shared_target_coordination(self) -> (value: Option<Duration>)
        ensures
            value == self.shared_target_coordination,
    {
        self.shared_target_coordination
    }

    /// Partial Cargo/rustc identity, metadata, discovery, and hashing timings.
    pub fn input_resolution(self) -> (value: WasmInputResolutionTimings)
        ensures
            value == self.input_resolution,
    {
        self.input_resolution
    }

    /// Time spent on shared-target maintenance, when reached.
    pub fn shared_target_maintenance(self) -> (value: Option<Duration>)
        ensures
            value == self.shared_target_maintenance,
    {
        self.shared_target_maintenance
    }

    /// Time spent executing Cargo, including an unsuccessful execution.
    pub fn cargo_build(self) -> (value: Option<Duration>)
        ensures
            value == self.cargo_build,
    {
        self.cargo_build
    }

    /// Time spent validating or publishing artifacts, when reached.
    pub fn artifact_publication(self) -> (value: Option<Duration>)
        ensures
            value == self.artifact_publication,
    {
        self.artifact_publication
    }

    /// Time spent on exact-cache maintenance, when reached.
    pub fn exact_cache_maintenance(self) -> (value: Option<Duration>)
        ensures
            value == self.exact_cache_maintenance,
    {
        self.exact_cache_maintenance
    }

    /// Explicit incomplete-entry cleanup time, when failure required it.
    pub fn cleanup(self) -> (value: Option<Duration>)
        ensures
            value == self.cleanup,
    {
        self.cleanup
    }

    /// Complete failed acquisition wall time.
    pub fn total(self) -> (value: Duration)
        ensures
            value == self.total,
    {
        self.total
    }
}

/// Whether `sum` is the part-wise sum of two input resolutions.
pub open spec fn resolution_sum(
    left: WasmInputResolutionTimings,
    right: WasmInputResolutionTimings,
    sum: WasmInputResolutionTimings,
) -> bool {
    &&& sum.tool_identity@ == saturating_sum(left.tool_identity@, right.tool_identity@)
    &&& sum.cargo_metadata@ == saturating_sum(left.cargo_metadata@, right.cargo_metadata@)
    &&& sum.input_discovery@ == saturating_sum(left.input_discovery@, right.input_discovery@)
    &&& sum.content_hashing@ == saturating_sum(left.content_hashing@, right.content_hashing@)
    &&& sum.total@ == saturating_sum(left.total@, right.total@)
}

impl WasmInputResolutionTimings {
    /// Add the parts of another resolution.
    pub fn include_timings(&mut self, other: Self)
        ensures
            resolution_sum(*old(self), other, *final(self)),
            is_zero_resolution(other) ==> *final(self) == *old(self),
            is_zero_resolution(*old(self)) ==> *final(self) == other,
    {
        self.tool_identity = self.tool_identity.saturating_add(other.tool_identity);
        self.cargo_metadata = self.cargo_metadata.saturating_add(other.cargo_metadata);
        self.input_discovery = self.input_discovery.saturating_add(other.input_discovery);
        self.content_hashing = self.content_hashing.saturating_add(other.content_hashing);
        self.total = self.total.saturating_add(other.total);
    }
}

/// Whether `sum` is the part-wise sum of two acquisitions.
pub open spec fn timings_sum(
    left: WasmBuildTimings,
    right: WasmBuildTimings,
    sum: WasmBuildTimings,
) -> bool {
    &&& sum.lock_wait@ == saturating_sum(left.lock_wait@, right.lock_wait@)
    &&& optional_sum(
        left.shared_incremental_lock_wait,
        right.shared_incremental_lock_wait,
        sum.shared_incremental_lock_wait,
    )
    &&& resolution_sum(left.input_resolution, right.input_resolution, sum.input_resolution)
    &&& optional_sum(left.cargo_build, right.cargo_build, sum.cargo_build)
    &&& optional_sum(left.cache_maintenance, right.cache_maintenance, sum.cache_maintenance)
    &&& sum.total@ == saturating_sum(left.total@, right.total@)
}

impl WasmBuildTimings {
    /// The part-wise sum of two acquisitions; one that took no time changes nothing.
    pub fn saturating_add(self, other: Self) -> (sum: Self)
        ensures
            timings_sum(self, other, sum),
            is_zero_timings(other) ==> sum == self,
            is_zero_timings(self) ==> sum == other,
    {
        let mut input_resolution = self.input_resolution;
        input_resolution.include_timings(other.input_resolution);
        WasmBuildTimings {
            lock_wait: self.lock_wait.saturating_add(other.lock_wait),
            shared_incremental_lock_wait: saturating_add_optional_duration(
                self.shared_incremental_lock_wait,
                other.shared_incremental_lock_wait,
            ),
            input_resolution,
            cargo_build: saturating_add_optional_duration(self.cargo_build, other.cargo_build),
            cache_maintenance: saturating_add_optional_duration(
                self.cache_maintenance,
                other.cache_maintenance,
            ),
            total: self.total.saturating_add(other.total),
        }
    }
}

/// Primary phase in which one cacheable Wasm acquisition failed.
#[derive(Clone, Copy, Debug, PartialEq, Eq, Structural)]
pub enum WasmBuildFailurePhase {
    /// The caller supplied an invalid build specification.
    Specification,
    /// Waiting for the exact-cache lock or preparing its directory.
    ExactCacheCoordination,
    /// Reading Cargo or rustc identity.
    ToolIdentity,
    /// Running or decoding Cargo metadata.
    CargoMetadata,
    /// Discovering selected source and configuration inputs.
    InputDiscovery,
    /// Hashing selected and conservative input contents.
    ContentHashing,
    /// Waiting for or preparing a shared incremental target.
    SharedTargetCoordination,
    /// Applying configured shared-target maintenance.
    SharedTargetMaintenance,
    /// Executing Cargo for the selected Wasm packages.
    CargoBuild,
    /// Validating, copying, stamping, or materializing Wasm artifacts.
    ArtifactPublication,
    /// Applying exact-cache retention after a successful acquisition.
    ExactCacheMaintenance,
    /// Removing an incomplete exact-cache entry after failure.
    Cleanup,
}

/// Potentially long phase of one observed Wasm-cache acquisition.
#[derive(Clone, Copy, Debug, PartialEq, Eq, Structural)]
pub enum WasmBuildProgressPhase {
    /// Waiting for exclusive ownership of the exact artifact cache.
    ExactCacheLock,
    /// Reading the Cargo executable identity.
    CargoIdentity,
    /// Reading the Rust compiler identity.
    RustcIdentity,
    /// Resolving Cargo's package graph.
    CargoMetadata,
    /// Discovering local source and configuration inputs.
    InputDiscovery,
    /// Hashing exact source and configuration contents.
    ContentHashing,
    /// Waiting for exclusive ownership of a shared incremental Cargo target.
    SharedTargetLock,
    /// Inspecting or clearing a shared incremental Cargo target.
    SharedTargetMaintenance,
    /// Compiling the selected Wasm packages.
    CargoBuild,
    /// Validating, copying, hashing, or stamping exact artifacts.
    ArtifactPublication,
    /// Applying retention to immutable exact-cache entries.
    ExactCacheMaintenance,
}

/// The failure phase to which a progress phase belongs.
pub open spec fn failure_phase_of(phase: WasmBuildProgressPhase) -> WasmBuildFailurePhase {
    match phase {
        WasmBuildProgressPhase::ExactCacheLock => WasmBuildFailurePhase::ExactCacheCoordination,
        WasmBuildProgressPhase::CargoIdentity => WasmBuildFailurePhase::ToolIdentity,
        WasmBuildProgressPhase::RustcIdentity => WasmBuildFailurePhase::ToolIdentity,
        WasmBuildProgressPhase::CargoMetadata => WasmBuildFailurePhase::CargoMetadata,
        WasmBuildProgressPhase::InputDiscovery => WasmBuildFailurePhase::InputDiscovery,
        WasmBuildProgressPhase::ContentHashing => WasmBuildFailurePhase::ContentHashing,
        WasmBuildProgressPhase::SharedTargetLock => WasmBuildFailurePhase::SharedTargetCoordination,
        WasmBuildProgressPhase::SharedTargetMaintenance =>
            WasmBuildFailurePhase::SharedTargetMaintenance,
        WasmBuildProgressPhase::CargoBuild => WasmBuildFailurePhase::CargoBuild,
        WasmBuildProgressPhase::ArtifactPublication => WasmBuildFailurePhase::ArtifactPublication,
        WasmBuildProgressPhase::ExactCacheMaintenance =>
            WasmBuildFailurePhase::ExactCacheMaintenance,
    }
}

/// The failure phase to which a progress phase belongs.
pub fn progress_failure_phase(phase: WasmBuildProgressPhase) -> (failure: WasmBuildFailurePhase)
    ensures
        failure == failure_phase_of(phase),
{
    match phase {
        WasmBuildProgressPhase::ExactCacheLock => WasmBuildFailurePhase::ExactCacheCoordination,
        WasmBuildProgressPhase::CargoIdentity | WasmBuildProgressPhase::RustcIdentity => {
            WasmBuildFailurePhase::ToolIdentity
        },
        WasmBuildProgressPhase::CargoMetadata => WasmBuildFailurePhase::CargoMetadata,
        WasmBuildProgressPhase::InputDiscovery => WasmBuildFailurePhase::InputDiscovery,
        WasmBuildProgressPhase::ContentHashing => WasmBuildFailurePhase::ContentHashing,
        WasmBuildProgressPhase::SharedTargetLock => WasmBuildFailurePhase::SharedTargetCoordination,
        WasmBuildProgressPhase::SharedTargetMaintenance => {
            WasmBuildFailurePhase::SharedTargetMaintenance
        },
        WasmBuildProgressPhase::CargoBuild => WasmBuildFailurePhase::CargoBuild,
        WasmBuildProgressPhase::ArtifactPublication => WasmBuildFailurePhase::ArtifactPublication,
        WasmBuildProgressPhase::ExactCacheMaintenance => {
            WasmBuildFailurePhase::ExactCacheMaintenance
        },
    }
}

/// Name of a progress phase.
pub open spec fn progress_phase_text(phase: WasmBuildProgressPhase) -> Seq<char> {
    match phase {
        WasmBuildProgressPhase::ExactCacheLock => "exact cache lock"@,
        WasmBuildProgressPhase::CargoIdentity => "Cargo identity"@,
        WasmBuildProgressPhase::RustcIdentity => "Rust compiler identity"@,
        WasmBuildProgressPhase::CargoMetadata => "Cargo metadata"@,
        WasmBuildProgressPhase::InputDiscovery => "input discovery"@,
        WasmBuildProgressPhase::ContentHashing => "content hashing"@,
        WasmBuildProgressPhase::SharedTargetLock => "shared target lock"@,
        WasmBuildProgressPhase::SharedTargetMaintenance => "shared target maintenance"@,
        WasmBuildProgressPhase::CargoBuild => "Cargo build"@,
        WasmBuildProgressPhase::ArtifactPublication => "artifact publication"@,
        WasmBuildProgressPhase::ExactCacheMaintenance => "exact cache maintenance"@,
    }
}

impl WasmBuildProgressPhase {
    /// Name of the phase.
    pub fn render(self) -> (text: &'static str)
        ensures
            text@ == progress_phase_text(self),
    {
        match self {
            WasmBuildProgressPhase::ExactCacheLock => "exact cache lock",
            WasmBuildProgressPhase::CargoIdentity => "Cargo identity",
            WasmBuildProgressPhase::RustcIdentity => "Rust compiler identity",
            WasmBuildProgressPhase::CargoMetadata => "Cargo metadata",
            WasmBuildProgressPhase::InputDiscovery => "input discovery",
            WasmBuildProgressPhase::ContentHashing => "content hashing",
            WasmBuildProgressPhase::SharedTargetLock => "shared target lock",
            WasmBuildProgressPhase::SharedTargetMaintenance => "shared target maintenance",
            WasmBuildProgressPhase::CargoBuild => "Cargo build",
            WasmBuildProgressPhase::ArtifactPublication => "artifact publication",
            WasmBuildProgressPhase::ExactCacheMaintenance => "exact cache maintenance",
        }
    }
}

/// The phase to which a failure belongs when no phase was being observed.
pub open spec fn unobserved_phase(error: WasmBuildError) -> WasmBuildFailurePhase {
    match error {
        WasmBuildError::InvalidSpec { .. } => WasmBuildFailurePhase::Specification,
        WasmBuildError::CommandSpawn { phase, .. } | WasmBuildError::CommandFailed { phase, .. } => {
            match phase {
                WasmBuildPhase::CargoIdentity => WasmBuildFailurePhase::ToolIdentity,
                WasmBuildPhase::RustcIdentity => WasmBuildFailurePhase::ToolIdentity,
                WasmBuildPhase::CargoMetadata => WasmBuildFailurePhase::CargoMetadata,
                WasmBuildPhase::CargoBuild => WasmBuildFailurePhase::CargoBuild,
            }
        },
        WasmBuildError::InvalidMetadata { .. } => WasmBuildFailurePhase::CargoMetadata,
        WasmBuildError::InvalidCargoConfiguration { .. } => WasmBuildFailurePhase::InputDiscovery,
        WasmBuildError::MissingArtifacts { .. } => WasmBuildFailurePhase::ArtifactPublication,
        WasmBuildError::InputsChangedDuringBuild { .. } => WasmBuildFailurePhase::ContentHashing,
        WasmBuildError::PreparedInputSnapshotInvalidated =>
            WasmBuildFailurePhase::ArtifactPublication,
        WasmBuildError::FailedBuildCleanup { .. } => WasmBuildFailurePhase::Cleanup,
        WasmBuildError::Io { .. } => WasmBuildFailurePhase::ExactCacheCoordination,
    }
}

/// The phase to which a failure belongs when no phase was being observed.
pub fn classify_unobserved_failure(error: &WasmBuildError) -> (phase: WasmBuildFailurePhase)
    ensures
        phase == unobserved_phase(*error),
{
    match error {
        WasmBuildError::InvalidSpec { .. } => WasmBuildFailurePhase::Specification,
        WasmBuildError::CommandSpawn { phase, .. } | WasmBuildError::CommandFailed { phase, .. } => {
            match phase {
                WasmBuildPhase::CargoIdentity | WasmBuildPhase::RustcIdentity => {
                    WasmBuildFailurePhase::ToolIdentity
                },
                WasmBuildPhase::CargoMetadata => WasmBuildFailurePhase::CargoMetadata,
                WasmBuildPhase::CargoBuild => WasmBuildFailurePhase::CargoBuild,
            }
        },
        WasmBuildError::InvalidMetadata { .. } => WasmBuildFailurePhase::CargoMetadata,
        WasmBuildError::InvalidCargoConfiguration { .. } => WasmBuildFailurePhase::InputDiscovery,
        WasmBuildError::MissingArtifacts { .. } => WasmBuildFailurePhase::ArtifactPublication,
        WasmBuildError::InputsChangedDuringBuild { .. } => WasmBuildFailurePhase::ContentHashing,
        WasmBuildError::PreparedInputSnapshotInvalidated => {
            WasmBuildFailurePhase::ArtifactPublication
        },
        WasmBuildError::FailedBuildCleanup { .. } => WasmBuildFailurePhase::Cleanup,
        WasmBuildError::Io { .. } => WasmBuildFailurePhase::ExactCacheCoordination,
    }
}

/// Phase bookkeeping of one acquisition: where it is, and where its time went.
#[derive(Clone, Copy, Debug, PartialEq, Eq, Structural)]
pub struct PhaseLog {
    /// Phase that is running or ran last.
    pub failure_phase: Option<WasmBuildFailurePhase>,
    /// Time spent in each phase so far.
    pub failure_timings: WasmBuildFailureTimings,
}

/// Whether `after` is `before` with `elapsed` added to what a phase took.
pub open spec fn phase_added(
    before: Option<Duration>,
    elapsed: Duration,
    after: Option<Duration>,
) -> bool {
    after is Some && after->0@ == saturating_sum(
        match before {
            Some(spent) => spent@,
            None => 0,
        },
        elapsed@,
    )
}

/// Whether `after` is `before` with `elapsed` added to one part of input resolution and its total.
pub open spec fn resolution_phase_added(
    before: WasmInputResolutionTimings,
    phase: WasmBuildFailurePhase,
    elapsed: Duration,
    after: WasmInputResolutionTimings,
) -> bool {
    &&& after.total@ == saturating_sum(before.total@, elapsed@)
    &&& if phase is ToolIdentity {
        after.tool_identity@ == saturating_sum(before.tool_identity@, elapsed@)
    } else {
        after.tool_identity == before.tool_identity
    }
    &&& if phase is CargoMetadata {
        after.cargo_metadata@ == saturating_sum(before.cargo_metadata@, elapsed@)
    } else {
        after.cargo_metadata == before.cargo_metadata
    }
    &&& if phase is InputDiscovery {
        after.input_discovery@ == saturating_sum(before.input_discovery@, elapsed@)
    } else {
        after.input_discovery == before.input_discovery
    }
    &&& if phase is ContentHashing {
        after.content_hashing@ == saturating_sum(before.content_hashing@, elapsed@)
    } else {
        after.content_hashing == before.content_hashing
    }
}

/// Whether a phase is a part of input resolution.
pub open spec fn is_resolution_phase(phase: WasmBuildFailurePhase) -> bool {
    phase is ToolIdentity || phase is CargoMetadata || phase is InputDiscovery
        || phase is ContentHashing
}

/// Whether `after` is `before` with `elapsed` added to what `phase` took, and nothing else changed.
pub open spec fn phase_recorded(
    before: WasmBuildFailureTimings,
    phase: WasmBuildFailurePhase,
    elapsed: Duration,
    after: WasmBuildFailureTimings,
) -> bool {
    &&& after.total == before.total
    &&& if phase is ExactCacheCoordination {
        after.exact_cache_coordination@ == saturating_sum(
            before.exact_cache_coordination@,
            elapsed@,
        )
    } else {
        after.exact_cache_coordination == before.exact_cache_coordination
    }
    &&& if is_resolution_phase(phase) {
        resolution_phase_added(before.input_resolution, phase, elapsed, after.input_resolution)
    } else {
        after.input_resolution == before.input_resolution
    }
    &&& if phase is SharedTargetCoordination {
        phase_added(before.shared_target_coordination, elapsed, after.shared_target_coordination)
    } else {
        after.shared_target_coordination == before.shared_target_coordination
    }
    &&& if phase is SharedTargetMaintenance {
        phase_added(before.shared_target_maintenance, elapsed, after.shared_target_maintenance)
    } else {
        after.shared_target_maintenance == before.shared_target_maintenance
    }
    &&& if phase is CargoBuild {
        phase_added(before.cargo_build, elapsed, after.cargo_build)
    } else {
        after.cargo_build == before.cargo_build
    }
    &&& if phase is ArtifactPublication {
        phase_added(before.artifact_publication, elapsed, after.artifact_publication)
    } else {
        after.artifact_publication == before.artifact_publication
    }
    &&& if phase is ExactCacheMaintenance {
        phase_added(before.exact_cache_maintenance, elapsed, after.exact_cache_maintenance)
    } else {
        after.exact_cache_maintenance == before.exact_cache_maintenance
    }
    &&& if phase is Cleanup {
        phase_added(before.cleanup, elapsed, after.cleanup)
    } else {
        after.cleanup == before.cleanup
    }
}

fn added(before: Option<Duration>, elapsed: Duration) -> (after: Option<Duration>)
    ensures
        phase_added(before, elapsed, after),
{
    match before {
        Some(spent) => Some(spent.saturating_add(elapsed)),
        None => Some(Duration::zero().saturating_add(elapsed)),
    }
}

impl PhaseLog {
    /// A log of an acquisition that has not started.
    pub fn new() -> (log: Self)
        ensures
            log.failure_phase is None,
            log.failure_timings.exact_cache_coordination@ == 0,
            log.failure_timings.shared_target_coordination is None,
            is_zero_resolution(log.failure_timings.input_resolution),
            log.failure_timings.shared_target_maintenance is None,
            log.failure_timings.cargo_build is None,
            log.failure_timings.artifact_publication is None,
            log.failure_timings.exact_cache_maintenance is None,
            log.failure_timings.cleanup is None,
            log.failure_timings.total@ == 0,
    {
        PhaseLog { failure_phase: None, failure_timings: WasmBuildFailureTimings::default() }
    }

    /// Note that a phase has started.
    pub fn begin_phase(&mut self, phase: WasmBuildFailurePhase)
        ensures
            *final(self) == (PhaseLog { failure_phase: Some(phase), ..*old(self) }),
    {
        self.failure_phase = Some(phase);
    }

    /// Note that a phase took `elapsed`; a failed attempt counts like a successful one.
    pub fn record_phase(&mut self, phase: WasmBuildFailurePhase, elapsed: Duration)
        ensures
            final(self).failure_phase == Some(phase),
            phase_recorded(
                old(self).failure_timings,
                phase,
                elapsed,
                final(self).failure_timings,
            ),
    {
        self.failure_phase = Some(phase);
        let mut timings = self.failure_timings;
        match phase {
            WasmBuildFailurePhase::Specification => {},
            WasmBuildFailurePhase::ExactCacheCoordination => {
                timings.exact_cache_coordination = timings.exact_cache_coordination.saturating_add(
                    elapsed,
                );
            },
            WasmBuildFailurePhase::ToolIdentity => {
                timings.input_resolution.tool_identity =
                timings.input_resolution.tool_identity.saturating_add(elapsed);
                timings.input_resolution.total = timings.input_resolution.total.saturating_add(
                    elapsed,
                );
            },
            WasmBuildFailurePhase::CargoMetadata => {
                timings.input_resolution.cargo_metadata =
                timings.input_resolution.cargo_metadata.saturating_add(elapsed);
                timings.input_resolution.total = timings.input_resolution.total.saturating_add(
                    elapsed,
                );
            },
            WasmBuildFailurePhase::InputDiscovery => {
                timings.input_resolution.input_discovery =
                timings.input_resolution.input_discovery.saturating_add(elapsed);
                timings.input_resolution.total = timings.input_resolution.total.saturating_add(
                    elapsed,
                );
            },
            WasmBuildFailurePhase::ContentHashing => {
                timings.input_resolution.content_hashing =
                timings.input_resolution.content_hashing.saturating_add(elapsed);
                timings.input_resolution.total = timings.input_resolution.total.saturating_add(
                    elapsed,
                );
            },
            WasmBuildFailurePhase::SharedTargetCoordination => {
                timings.shared_target_coordination = added(
                    timings.shared_target_coordination,
                    elapsed,
                );
            },
            WasmBuildFailurePhase::SharedTargetMaintenance => {
                timings.shared_target_maintenance = added(
                    timings.shared_target_maintenance,
                    elapsed,
                );
            },
            WasmBuildFailurePhase::CargoBuild => {
                timings.cargo_build = added(timings.cargo_build, elapsed);
            },
            WasmBuildFailurePhase::ArtifactPublication => {
                timings.artifact_publication = added(timings.artifact_publication, elapsed);
            },
            WasmBuildFailurePhase::ExactCacheMaintenance => {
                timings.exact_cache_maintenance = added(timings.exact_cache_maintenance, elapsed);
            },
            WasmBuildFailurePhase::Cleanup => {
                timings.cleanup = added(timings.cleanup, elapsed);
            },
        }
        self.failure_timings = timings;
    }

    /// Phase and timings of a failure after `total` time.
    pub fn failure_details(
        &self,
        error: &WasmBuildError,
        total: Duration,
    ) -> (details: (WasmBuildFailurePhase, WasmBuildFailureTimings))
        ensures
            details.0 == match self.failure_phase {
                Some(phase) => phase,
                None => unobserved_phase(*error),
            },
            details.1 == (WasmBuildFailureTimings { total, ..self.failure_timings }),
    {
        let phase = match self.failure_phase {
            Some(phase) => phase,
            None => classify_unobserved_failure(error),
        };
        let mut timings = self.failure_timings;
        timings.total = total;
        (phase, timings)
    }

    /// Put back the phase that failed, once its cleanup succeeded.
    pub fn restore_phase(&mut self, primary: Option<WasmBuildFailurePhase>)
        ensures
            *final(self) == (PhaseLog { failure_phase: primary, ..*old(self) }),
    {
        self.failure_phase = primary;
    }
}

/// Observation settings for one cacheable Wasm build.
#[derive(Clone, Copy, Debug, PartialEq, Eq, Structural)]
pub struct WasmBuildProgressConfig {
    /// Configured heartbeat interval, or `None` when disabled.
    pub heartbeat_interval: Option<Duration>,
    /// Whether raw Cargo output chunks are emitted to the observer.
    pub emit_cargo_output: bool,
}

/// Whether a configuration has a heartbeat every ten quiet seconds and forwards Cargo output.
pub open spec fn is_default_progress(config: WasmBuildProgressConfig) -> bool {
    &&& config.heartbeat_interval is Some
    &&& config.heartbeat_interval->0@ == 10_000_000_000
    &&& config.emit_cargo_output
}

impl Default for WasmBuildProgressConfig {
    fn default() -> (config: Self)
        ensures
            is_default_progress(config),
    {
        WasmBuildProgressConfig {
            heartbeat_interval: Some(Duration::from_secs(10)),
            emit_cargo_output: true,
        }
    }
}

impl WasmBuildProgressConfig {
    /// Observe acquisition progress and emit a heartbeat at least every ten quiet seconds.
    pub fn new() -> (config: Self)
        ensures
            is_default_progress(config),
    {
        WasmBuildProgressConfig {
            heartbeat_interval: Some(Duration::from_secs(10)),
            emit_cargo_output: true,
        }
    }

    /// Select the maximum quiet interval between phase-aware heartbeat events.
    ///
    /// A zero interval is rejected before any build work begins.
    pub fn with_heartbeat_interval(self, interval: Duration) -> (config: Self)
        ensures
            config == (WasmBuildProgressConfig { heartbeat_interval: Some(interval), ..self }),
    {
        WasmBuildProgressConfig { heartbeat_interval: Some(interval), ..self }
    }

    /// Disable time-based heartbeats while retaining phase and output events.
    pub fn without_heartbeats(self) -> (config: Self)
        ensures
            config == (WasmBuildProgressConfig { heartbeat_interval: None, ..self }),
    {
        WasmBuildProgressConfig { heartbeat_interval: None, ..self }
    }

    /// Select whether raw Cargo stdout/stderr chunks are forwarded.
    pub fn with_cargo_output(self, emit: bool) -> (config: Self)
        ensures
            config == (WasmBuildProgressConfig { emit_cargo_output: emit, ..self }),
    {
        WasmBuildProgressConfig { emit_cargo_output: emit, ..self }
    }

    /// Configured heartbeat interval, or `None` when disabled.
    pub fn heartbeat_interval(self) -> (interval: Option<Duration>)
        ensures
            interval == self.heartbeat_interval,
    {
        self.heartbeat_interval
    }

    /// Whether raw Cargo output chunks are emitted to the observer.
    pub fn emits_cargo_output(self) -> (emits: bool)
        ensures
            emits == self.emit_cargo_output,
    {
        self.emit_cargo_output
    }

    /// How long to wait for the next heartbeat when the last event is `quiet` time ago.
    pub fn heartbeat_due_in(self, quiet: Duration) -> (wait: Option<Duration>)
        ensures
            wait is Some == self.heartbeat_interval is Some,
            wait matches Some(left) ==> left@ == if self.heartbeat_interval->0@ >= quiet@ {
                (self.heartbeat_interval->0@ - quiet@) as nat
            } else {
                0
            },
    {
        match self.heartbeat_interval {
            Some(interval) => Some(interval.saturating_sub(quiet)),
            None => None,
        }
    }

    /// Reject a heartbeat interval that no quiet time can satisfy.
    pub fn validate(self) -> (result: Result<(), WasmBuildError>)
        ensures
            result is Err == (self.heartbeat_interval is Some && self.heartbeat_interval->0@ == 0),
            result matches Err(error) ==> error matches WasmBuildError::InvalidSpec { message }
                && message@ == "Wasm build progress heartbeat interval must be greater than zero"@,
    {
        match self.heartbeat_interval {
            Some(interval) => {
                if interval.as_nanos() == 0 {
                    Err(
                        super::error::invalid_spec(
                            "Wasm build progress heartbeat interval must be greater than zero",
                        ),
                    )
                } else {
                    Ok(())
                }
            },
            None => Ok(()),
        }
    }
}

/// Raw child-process stream attached to a Cargo progress event.
#[derive(Clone, Copy, Debug, PartialEq, Eq, Structural)]
pub enum WasmBuildOutputStream {
    /// Cargo standard output.
    Stdout,
    /// Cargo standard error.
    Stderr,
}

/// Final cache state reported by a successful observed build.
#[derive(Clone, Copy, Debug, PartialEq, Eq, Structural)]
pub enum WasmBuildProgressOutcome {
    /// Cargo ran and exact artifacts were published.
    Built,
    /// Exact artifacts were reused without Cargo.
    Reused,
}

/// Structured progress emitted by an observed cacheable Wasm build.
#[derive(Clone, Debug)]
pub enum WasmBuildProgressEvent {
    /// One build/cache acquisition started.
    Started,
    /// One exact Cargo input-resolution pass completed.
    InputsResolved {
        /// Complete exact build fingerprint.
        fingerprint: InputDigest,
        /// Semantic selected-source/configuration digest.
        input_digest: InputDigest,
        /// Time spent on this resolution pass.
        elapsed: Duration,
    },
    /// No reusable exact entry existed for this fingerprint.
    CacheMiss {
        /// Missing exact fingerprint.
        fingerprint: InputDigest,
    },
    /// Exact artifacts were found and materialized when necessary.
    CacheHit {
        /// Reused exact fingerprint.
        fingerprint: InputDigest,
    },
    /// The build is about to wait for a caller-owned shared Cargo target.
    SharedTargetLockStarted {
        /// Shared target selected by the build specification.
        target_dir: Vec<u8>,
    },
    /// Exclusive shared-target ownership was acquired.
    SharedTargetLockAcquired {
        /// Canonical shared target directory.
        target_dir: Vec<u8>,
        /// Time spent waiting for another process.
        wait: Duration,
    },
    /// Scheduled shared-target retention is about to be evaluated under lock.
    SharedTargetMaintenanceStarted {
        /// Canonical shared target selected by the build specification.
        target_dir: Vec<u8>,
    },
    /// Scheduled shared-target retention completed or was skipped.
    SharedTargetMaintenanceFinished {
        /// Structured retention result attached to the successful acquisition.
        outcome: SharedIncrementalTargetMaintenanceOutcome,
    },
    /// Cargo compilation started.
    CargoStarted {
        /// Cargo target receiving compilation state.
        target_dir: Vec<u8>,
    },
    /// One raw Cargo output chunk was read without lossy UTF-8 conversion.
    CargoOutput {
        /// Child-process stream that produced the bytes.
        stream: WasmBuildOutputStream,
        /// Raw output bytes in per-stream read order.
        bytes: Vec<u8>,
    },
    /// The current acquisition phase remained active without another event.
    Heartbeat {
        /// Phase that is still making or waiting for progress.
        phase: WasmBuildProgressPhase,
        /// Time elapsed since this phase started.
        elapsed: Duration,
    },
    /// Cargo exited and all captured output was drained.
    CargoFinished {
        /// Whether Cargo reported success.
        success: bool,
        /// Portable exit code when the platform exposes one.
        code: Option<i32>,
        /// Complete Cargo execution duration.
        elapsed: Duration,
    },
    /// The complete cacheable build operation succeeded.
    Finished {
        /// Whether Cargo ran or an exact entry was reused.
        outcome: WasmBuildProgressOutcome,
        /// Exact fingerprint selected by the operation.
        fingerprint: InputDigest,
        /// Total operation duration.
        elapsed: Duration,
    },
}

/// Output of a child process, captured stream by stream.
#[derive(Debug)]
pub struct CapturedProcessOutput {
    /// Captured standard output.
    pub stdout: Vec<u8>,
    /// Captured standard error.
    pub stderr: Vec<u8>,
}

impl CapturedProcessOutput {
    /// Nothing captured yet.
    pub fn new() -> (captured: Self)
        ensures
            captured.stdout@ == Seq::<u8>::empty(),
            captured.stderr@ == Seq::<u8>::empty(),
    {
        CapturedProcessOutput { stdout: Vec::new(), stderr: Vec::new() }
    }

    /// Capture one chunk, and hand it on as an event when output is forwarded.
    pub fn take_chunk(
        &mut self,
        stream: WasmBuildOutputStream,
        bytes: Vec<u8>,
        config: WasmBuildProgressConfig,
    ) -> (event: Option<WasmBuildProgressEvent>)
        ensures
            final(self).stdout@ == match stream {
                WasmBuildOutputStream::Stdout => old(self).stdout@ + bytes@,
                WasmBuildOutputStream::Stderr => old(self).stdout@,
            },
            final(self).stderr@ == match stream {
                WasmBuildOutputStream::Stdout => old(self).stderr@,
                WasmBuildOutputStream::Stderr => old(self).stderr@ + bytes@,
            },
            event is Some == config.emit_cargo_output,
            event matches Some(forwarded) ==> forwarded == (WasmBuildProgressEvent::CargoOutput {
                stream,
                bytes,
            }),
    {
        let mut copy = vstd::slice::slice_to_vec(bytes.as_slice());
        match stream {
            WasmBuildOutputStream::Stdout => self.stdout.append(&mut copy),
            WasmBuildOutputStream::Stderr => self.stderr.append(&mut copy),
        }
        if config.emit_cargo_output {
            Some(WasmBuildProgressEvent::CargoOutput { stream, bytes })
        } else {
            None
        }
    }
}

} // verus!

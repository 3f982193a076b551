//! Everything about artifacts under one name.

pub use crate::cache_fs::{
    ArtifactCacheMaintenance, ArtifactCachePrunePolicy, ArtifactCachePruneReport,
};
pub use crate::digest::InputDigest;
pub use crate::icp::{
    icp_artifact_ready_for_build, icp_artifact_ready_with_snapshot, WatchedInputSnapshot,
};
pub use crate::tool::resolve_executable;
pub use crate::transaction::acquire::{
    ArtifactBuildTransaction, ArtifactCacheArtifact, ArtifactCacheOutcome,
    ArtifactCachePreparation, ArtifactCacheRecord, ArtifactCacheTimings,
};
pub use crate::transaction::error::ArtifactCacheError;
pub use crate::transaction::spec::{ArtifactCacheSpec, ArtifactOutputValidation};
pub use crate::transaction_batch::{
    ArtifactCacheBatchContractError, ArtifactCacheBatchFailedEntry, ArtifactCacheBatchFailure,
    ArtifactCacheBatchFailurePhase, ArtifactCacheBatchFailureTimings, ArtifactCacheBatchMetrics,
    ArtifactCacheBatchReport, LabeledArtifactCacheSpec,
};
pub use crate::wasm::{wasm_artifacts_ready, wasm_path};
pub use crate::wasm_batch::{
    LabeledWasmBuildSpec, WasmBuildBatchConfig, WasmBuildBatchContractError, WasmBuildBatchEntry,
    WasmBuildBatchFailure, WasmBuildBatchMaintenanceEntry, WasmBuildBatchMetrics,
    WasmBuildBatchOutcomeEntry, WasmBuildBatchProgressEvent, WasmBuildBatchReport,
};
pub use crate::wasm_cache::acquire::{WasmBuildOutcome, WasmBuildRecord};
pub use crate::wasm_cache::error::{WasmBuildError, WasmBuildPhase};
pub use crate::wasm_cache::inputs::{CargoBuildInput, ResolvedCargoBuildInputs};
pub use crate::wasm_cache::progress::{
    WasmBuildFailurePhase, WasmBuildFailureTimings, WasmBuildOutputStream,
    WasmBuildProgressConfig, WasmBuildProgressEvent, WasmBuildProgressOutcome,
    WasmBuildProgressPhase, WasmBuildTimings, WasmInputResolutionTimings,
};
pub use crate::wasm_cache::shared::{
    SharedIncrementalTargetInspection, SharedIncrementalTargetMaintenance,
    SharedIncrementalTargetMaintenanceOutcome,
};
pub use crate::wasm_cache::spec::{
    SharedIncrementalTargetMaintenanceConfig, SharedIncrementalTargetMaintenanceFailureMode,
    SharedIncrementalTargetPrunePolicy, WasmBuildCacheMode, WasmBuildSpec,
};
pub use crate::workspace::{test_target_dir, workspace_root_for};

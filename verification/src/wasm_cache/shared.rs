//! Maintenance of caller-owned shared Cargo targets.

use vstd::prelude::*;
use vstd::string::*;
use vstd::utf8::encode_utf8;
use super::error::{error_text, invalid_spec, WasmBuildError};
use super::identity::{shared_incremental_target, shared_target_path};
use super::spec::{
    SharedIncrementalTargetMaintenanceConfig, SharedIncrementalTargetMaintenanceFailureMode,
    SharedIncrementalTargetPrunePolicy, WasmBuildSpec,
};
use crate::cache_fs::{
    cache_maintenance_due, lemma_changed_limits_are_due, limits_identity, maintenance_due,
    MaintenanceMarker,
};
use crate::paths::{join, joined};
use crate::resolution::PathState;
use crate::settings::copy_bytes;
use crate::text::{decimal, decimal_text, is_text, lossy, lossy_text};
use crate::timing::{duration_text, Duration, Timestamp};

verus! {

/// Lock-coordinated disk-usage observation for a caller-owned shared Cargo target.
#[derive(Clone, Debug)]
pub struct SharedIncrementalTargetInspection {
    /// Canonical shared Cargo target directory that was inspected.
    pub target_dir: Vec<u8>,
    /// Logical bytes currently occupied by the complete shared target.
    pub logical_size_bytes: u64,
    /// Most recent recorded build use.
    pub last_used: Timestamp,
    /// Time spent waiting for another process using the shared target.
    pub lock_wait: Duration,
}

impl SharedIncrementalTargetInspection {
    /// Canonical shared Cargo target directory that was inspected.
    pub fn target_dir(&self) -> (path: &[u8])
        ensures
            path@ == self.target_dir@,
    {
        self.target_dir.as_slice()
    }

    /// Logical bytes currently occupied by the complete shared target.
    pub fn logical_size_bytes(&self) -> (bytes: u64)
        ensures
            bytes == self.logical_size_bytes,
    {
        self.logical_size_bytes
    }

    /// Most recent recorded build use, or the directory's modification time without one.
    pub fn last_used(&self) -> (time: Timestamp)
        ensures
            time == self.last_used,
    {
        self.last_used
    }

    /// Time spent waiting for another process using the shared target.
    pub fn lock_wait(&self) -> (wait: Duration)
        ensures
            wait == self.lock_wait,
    {
        self.lock_wait
    }
}

/// Result of explicit shared Cargo target maintenance.
#[derive(Clone, Debug)]
pub struct SharedIncrementalTargetMaintenance {
    /// Canonical shared Cargo target directory maintained under lock.
    pub target_dir: Vec<u8>,
    /// Logical bytes observed before applying the policy.
    pub logical_size_bytes_before: u64,
    /// Logical bytes retained after applying the policy.
    pub logical_size_bytes_after: u64,
    /// Most recent build use observed before applying the policy.
    pub last_used_before: Timestamp,
    /// Whether a configured limit caused the mutable target contents to be cleared.
    pub cleared: bool,
    /// Time spent waiting for another process using the shared target.
    pub lock_wait: Duration,
    /// Time spent measuring and, when required, clearing the target.
    pub maintenance: Duration,
}

impl SharedIncrementalTargetMaintenance {
    /// Canonical shared Cargo target directory maintained under lock.
    pub fn target_dir(&self) -> (path: &[u8])
        ensures
            path@ == self.target_dir@,
    {
        self.target_dir.as_slice()
    }

    /// Logical bytes observed before applying the policy.
    pub fn logical_size_bytes_before(&self) -> (bytes: u64)
        ensures
            bytes == self.logical_size_bytes_before,
    {
        self.logical_size_bytes_before
    }

    /// Logical bytes retained after applying the policy.
    pub fn logical_size_bytes_after(&self) -> (bytes: u64)
        ensures
            bytes == self.logical_size_bytes_after,
    {
        self.logical_size_bytes_after
    }

    /// Most recent build use observed before applying the policy.
    pub fn last_used_before(&self) -> (time: Timestamp)
        ensures
            time == self.last_used_before,
    {
        self.last_used_before
    }

    /// Whether a configured limit caused the mutable target contents to be cleared.
    pub fn was_cleared(&self) -> (cleared: bool)
        ensures
            cleared == self.cleared,
    {
        self.cleared
    }

    /// Time spent waiting for another process using the shared target.
    pub fn lock_wait(&self) -> (wait: Duration)
        ensures
            wait == self.lock_wait,
    {
        self.lock_wait
    }

    /// Time spent measuring and, when required, clearing the target.
    pub fn maintenance(&self) -> (time: Duration)
        ensures
            time == self.maintenance,
    {
        self.maintenance
    }

    /// The result as one line of text.
    pub fn render(&self) -> (text: String)
        ensures
            text@ == maintenance_text(*self),
    {
        let mut text = "target=".to_owned();
        text.append(lossy(self.target_dir.as_slice()).as_str());
        text.append(" action=");
        if self.cleared {
            text.append("cleared");
        } else {
            text.append("retained");
        }
        text.append(" bytes=");
        text.append(decimal_text(self.logical_size_bytes_before as u128).as_str());
        text.append("=>");
        text.append(decimal_text(self.logical_size_bytes_after as u128).as_str());
        text.append(" lock=");
        text.append(self.lock_wait.render().as_str());
        text.append(" maintenance=");
        text.append(self.maintenance.render().as_str());
        text
    }
}

/// A maintenance result as one line of text.
pub open spec fn maintenance_text(result: SharedIncrementalTargetMaintenance) -> Seq<char> {
    "target="@ + lossy_text(result.target_dir@) + " action="@ + (if result.cleared {
        "cleared"@
    } else {
        "retained"@
    }) + " bytes="@ + decimal(result.logical_size_bytes_before as nat) + "=>"@ + decimal(
        result.logical_size_bytes_after as nat,
    ) + " lock="@ + duration_text(result.lock_wait@) + " maintenance="@ + duration_text(
        result.maintenance@,
    )
}

/// Result of interval-limited shared Cargo target maintenance.
#[derive(Clone, Debug)]
pub enum SharedIncrementalTargetMaintenanceOutcome {
    /// The configured shared target does not exist, so nothing was created or inspected.
    Missing {
        /// Configured target path.
        target_dir: Vec<u8>,
    },
    /// A successful matching maintenance pass is still inside the requested interval.
    Skipped {
        /// Canonical shared Cargo target directory.
        target_dir: Vec<u8>,
        /// Time spent waiting for another process using the shared target.
        lock_wait: Duration,
        /// Time spent checking the small cross-process schedule marker.
        schedule_check: Duration,
    },
    /// Retention was evaluated under the shared-target lock.
    Performed {
        /// Completed retention report.
        maintenance: SharedIncrementalTargetMaintenance,
        /// Time spent checking the small cross-process schedule marker.
        schedule_check: Duration,
    },
    /// Integrated best-effort maintenance failed without invalidating the Wasm acquisition.
    Failed {
        /// Canonical shared Cargo target directory.
        target_dir: Vec<u8>,
        /// Time spent waiting for another process using the shared target.
        lock_wait: Duration,
        /// Rendered maintenance failure retained for diagnostics.
        message: String,
    },
}

/// A maintenance outcome as one line of text.
pub open spec fn outcome_text(outcome: SharedIncrementalTargetMaintenanceOutcome) -> Seq<char> {
    match outcome {
        SharedIncrementalTargetMaintenanceOutcome::Missing { target_dir } => "target="@
            + lossy_text(target_dir@) + " action=missing"@,
        SharedIncrementalTargetMaintenanceOutcome::Skipped {
            target_dir,
            lock_wait,
            schedule_check,
        } => "target="@ + lossy_text(target_dir@) + " action=skipped lock="@ + duration_text(
            lock_wait@,
        ) + " schedule="@ + duration_text(schedule_check@),
        SharedIncrementalTargetMaintenanceOutcome::Performed { maintenance, schedule_check } =>
            maintenance_text(maintenance) + " schedule="@ + duration_text(schedule_check@),
        SharedIncrementalTargetMaintenanceOutcome::Failed { target_dir, lock_wait, message } =>
            "target="@ + lossy_text(target_dir@) + " action=failed lock="@ + duration_text(
            lock_wait@,
        ) + " error="@ + message@,
    }
}

/// The target that an outcome speaks of.
pub open spec fn outcome_target(outcome: SharedIncrementalTargetMaintenanceOutcome) -> Seq<u8> {
    match outcome {
        SharedIncrementalTargetMaintenanceOutcome::Missing { target_dir } => target_dir@,
        SharedIncrementalTargetMaintenanceOutcome::Skipped { target_dir, .. } => target_dir@,
        SharedIncrementalTargetMaintenanceOutcome::Failed { target_dir, .. } => target_dir@,
        SharedIncrementalTargetMaintenanceOutcome::Performed { maintenance, .. } =>
            maintenance.target_dir@,
    }
}

impl SharedIncrementalTargetMaintenanceOutcome {
    /// Configured or canonical target associated with this result.
    pub fn target_dir(&self) -> (path: &[u8])
        ensures
            path@ == outcome_target(*self),
    {
        match self {
            SharedIncrementalTargetMaintenanceOutcome::Missing { target_dir }
            | SharedIncrementalTargetMaintenanceOutcome::Skipped { target_dir, .. }
            | SharedIncrementalTargetMaintenanceOutcome::Failed { target_dir, .. } => {
                target_dir.as_slice()
            },
            SharedIncrementalTargetMaintenanceOutcome::Performed { maintenance, .. } => {
                maintenance.target_dir()
            },
        }
    }

    /// Completed maintenance report, when retention was evaluated.
    pub fn maintenance(&self) -> (report: Option<&SharedIncrementalTargetMaintenance>)
        ensures
            report == match self {
                SharedIncrementalTargetMaintenanceOutcome::Performed { maintenance, .. } => Some(
                    maintenance,
                ),
                _ => None,
            },
    {
        match self {
            SharedIncrementalTargetMaintenanceOutcome::Performed { maintenance, .. } => Some(
                maintenance,
            ),
            _ => None,
        }
    }

    /// Whether retention was evaluated during this call.
    pub fn was_performed(&self) -> (performed: bool)
        ensures
            performed == (*self is Performed),
    {
        match self {
            SharedIncrementalTargetMaintenanceOutcome::Performed { .. } => true,
            _ => false,
        }
    }

    /// Time spent waiting for another process, when the target existed.
    pub fn lock_wait(&self) -> (wait: Option<Duration>)
        ensures
            wait == match *self {
                SharedIncrementalTargetMaintenanceOutcome::Missing { .. } => None,
                SharedIncrementalTargetMaintenanceOutcome::Skipped { lock_wait, .. } => Some(
                    lock_wait,
                ),
                SharedIncrementalTargetMaintenanceOutcome::Failed { lock_wait, .. } => Some(
                    lock_wait,
                ),
                SharedIncrementalTargetMaintenanceOutcome::Performed { maintenance, .. } => Some(
                    maintenance.lock_wait,
                ),
            },
    {
        match self {
            SharedIncrementalTargetMaintenanceOutcome::Missing { .. } => None,
            SharedIncrementalTargetMaintenanceOutcome::Skipped { lock_wait, .. }
            | SharedIncrementalTargetMaintenanceOutcome::Failed { lock_wait, .. } => Some(
                *lock_wait,
            ),
            SharedIncrementalTargetMaintenanceOutcome::Performed { maintenance, .. } => Some(
                maintenance.lock_wait,
            ),
        }
    }

    /// Time spent checking the schedule marker, when the target existed.
    pub fn schedule_check(&self) -> (time: Option<Duration>)
        ensures
            time == match *self {
                SharedIncrementalTargetMaintenanceOutcome::Skipped { schedule_check, .. } => Some(
                    schedule_check,
                ),
                SharedIncrementalTargetMaintenanceOutcome::Performed { schedule_check, .. } =>
                    Some(schedule_check),
                _ => None,
            },
    {
        match self {
            SharedIncrementalTargetMaintenanceOutcome::Skipped { schedule_check, .. }
            | SharedIncrementalTargetMaintenanceOutcome::Performed { schedule_check, .. } => Some(
                *schedule_check,
            ),
            _ => None,
        }
    }

    /// Rendered integrated maintenance failure, when best-effort handling preserved acquisition.
    pub fn failure_message(&self) -> (text: Option<&str>)
        ensures
            text is Some == (*self is Failed),
            text matches Some(found) ==> found@ == self->message@,
    {
        match self {
            SharedIncrementalTargetMaintenanceOutcome::Failed { message, .. } => Some(
                message.as_str(),
            ),
            _ => None,
        }
    }

    /// The outcome as one line of text.
    pub fn render(&self) -> (text: String)
        ensures
            text@ == outcome_text(*self),
    {
        match self {
            SharedIncrementalTargetMaintenanceOutcome::Missing { target_dir } => {
                let mut text = "target=".to_owned();
                text.append(lossy(target_dir.as_slice()).as_str());
                text.append(" action=missing");
                text
            },
            SharedIncrementalTargetMaintenanceOutcome::Skipped {
                target_dir,
                lock_wait,
                schedule_check,
            } => {
                let mut text = "target=".to_owned();
                text.append(lossy(target_dir.as_slice()).as_str());
                text.append(" action=skipped lock=");
                text.append(lock_wait.render().as_str());
                text.append(" schedule=");
                text.append(schedule_check.render().as_str());
                text
            },
            SharedIncrementalTargetMaintenanceOutcome::Performed {
                maintenance,
                schedule_check,
            } => {
                let mut text = maintenance.render();
                text.append(" schedule=");
                text.append(schedule_check.render().as_str());
                text
            },
            SharedIncrementalTargetMaintenanceOutcome::Failed { target_dir, lock_wait, message } => {
                let mut text = "target=".to_owned();
                text.append(lossy(target_dir.as_slice()).as_str());
                text.append(" action=failed lock=");
                text.append(lock_wait.render().as_str());
                text.append(" error=");
                text.append(message.as_str());
                text
            },
        }
    }
}

/// Whether a policy asks for a target of this age and size to be cleared.
pub open spec fn must_clear(
    policy: SharedIncrementalTargetPrunePolicy,
    now: int,
    last_used: int,
    size: u64,
) -> bool {
    ||| policy.max_age is Some && now >= last_used && now - last_used > policy.max_age->0@
    ||| policy.max_size_bytes is Some && size > policy.max_size_bytes->0
}

/// Decide whether a policy asks for a target to be cleared.
pub fn should_clear(
    policy: SharedIncrementalTargetPrunePolicy,
    now: Timestamp,
    last_used: Timestamp,
    size: u64,
) -> (clear: bool)
    ensures
        clear == must_clear(policy, now@, last_used@, size),
{
    let old_enough = match policy.max_age {
        Some(limit) => now.age_exceeds(last_used, limit),
        None => false,
    };
    let large_enough = match policy.max_size_bytes {
        Some(limit) => size > limit,
        None => false,
    };
    old_enough || large_enough
}

/// Whether a child of a shared target survives clearing.
pub open spec fn is_coordination_child(name: Seq<u8>) -> bool {
    name == encode_utf8(".ic-testkit"@) || name == encode_utf8("CACHEDIR.TAG"@)
}

/// Whether a child of a shared target survives clearing.
pub fn preserves_child(name: &[u8]) -> (preserved: bool)
    ensures
        preserved == is_coordination_child(name@),
{
    is_text(name, ".ic-testkit") || is_text(name, "CACHEDIR.TAG")
}

/// The children that clearing removes, in order.
pub open spec fn cleared_children(names: Seq<Seq<u8>>) -> Seq<Seq<u8>> {
    names.filter(|name: Seq<u8>| !is_coordination_child(name))
}

/// Choose the children that clearing removes.
pub fn children_to_clear(names: &Vec<Vec<u8>>) -> (chosen: Vec<Vec<u8>>)
    ensures
        crate::tree::byte_strings(chosen@) == cleared_children(
            crate::tree::byte_strings(names@),
        ),
{
    let ghost all = crate::tree::byte_strings(names@);
    let mut chosen: Vec<Vec<u8>> = Vec::new();
    let mut at: usize = 0;
    assert(crate::tree::byte_strings(chosen@) =~= cleared_children(all.take(0))) by {
        reveal(Seq::filter);
    }
    while at < names.len()
        invariant
            at <= names@.len(),
            all == crate::tree::byte_strings(names@),
            crate::tree::byte_strings(chosen@) == cleared_children(all.take(at as int)),
        decreases names.len() - at,
    {
        proof {
            reveal(Seq::filter);
            assert(all.take(at + 1).drop_last() =~= all.take(at as int));
            assert(all.take(at + 1).last() == all[at as int]);
        }
        if !preserves_child(names[at].as_slice()) {
            let ghost before = crate::tree::byte_strings(chosen@);
            chosen.push(copy_bytes(names[at].as_slice()));
            assert(crate::tree::byte_strings(chosen@) =~= before.push(all[at as int]));
        }
        at = at + 1;
    }
    assert(all.take(at as int) =~= all);
    chosen
}

/// Clearing never removes coordination metadata and removes everything else.
pub proof fn lemma_clearing_keeps_coordination(names: Seq<Seq<u8>>, name: Seq<u8>)
    ensures
        cleared_children(names).contains(name) == (names.contains(name) && !is_coordination_child(
            name,
        )),
    decreases names.len(),
{
    reveal(Seq::filter);
    if names.len() > 0 {
        let shorter = names.drop_last();
        lemma_clearing_keeps_coordination(shorter, name);
        let (all, kept) = (cleared_children(names), cleared_children(shorter));
        assert(names =~= shorter.push(names.last()));
        if shorter.contains(name) {
            let k = choose|k: int| 0 <= k < shorter.len() && shorter[k] == name;
            assert(names[k] == name);
        }
        if kept.contains(name) {
            let k = choose|k: int| 0 <= k < kept.len() && kept[k] == name;
            assert(all[k] == name);
        }
        if !is_coordination_child(names.last()) {
            assert(all =~= kept.push(names.last()));
            assert(all[all.len() - 1] == names.last());
        }
        assert(names[names.len() - 1] == names.last());
        if all.contains(name) && !kept.contains(name) {
            let k = choose|k: int| 0 <= k < all.len() && all[k] == name;
            if k < kept.len() {
                assert(kept[k] == name);
            }
        }
        if names.contains(name) && !shorter.contains(name) {
            let k = choose|k: int| 0 <= k < names.len() && names[k] == name;
            if k < shorter.len() {
                assert(shorter[k] == name);
            }
        }
    }
}

/// The report of one retention pass over a shared target.
///
/// `size_after` was measured after clearing; it counts only when the pass cleared.
pub fn maintenance_report(
    target_dir: &[u8],
    cleared: bool,
    size_before: u64,
    size_after: u64,
    last_used_before: Timestamp,
    lock_wait: Duration,
    maintenance: Duration,
) -> (report: SharedIncrementalTargetMaintenance)
    ensures
        report.target_dir@ == target_dir@,
        report.logical_size_bytes_before == size_before,
        report.logical_size_bytes_after == if cleared {
            size_after
        } else {
            size_before
        },
        report.last_used_before == last_used_before,
        report.cleared == cleared,
        report.lock_wait == lock_wait,
        report.maintenance == maintenance,
{
    let logical_size_bytes_after = if cleared {
        size_after
    } else {
        size_before
    };
    SharedIncrementalTargetMaintenance {
        target_dir: copy_bytes(target_dir),
        logical_size_bytes_before: size_before,
        logical_size_bytes_after,
        last_used_before,
        cleared,
        lock_wait,
        maintenance,
    }
}

/// A retention pass that is due, with what is recorded once it succeeded.
#[derive(Debug)]
pub struct DueSharedIncrementalTargetMaintenance {
    /// Directory of the schedule marker.
    pub schedule_root: Vec<u8>,
    /// Identity under which the pass is recorded.
    pub maintenance_identity: String,
    /// Time spent checking the schedule marker.
    pub schedule_check: Duration,
}

/// Whether a scheduled retention pass runs.
#[derive(Debug)]
pub enum SharedIncrementalTargetMaintenanceSchedule {
    /// A recent matching pass makes this one unnecessary.
    Skipped(SharedIncrementalTargetMaintenanceOutcome),
    /// The pass has to run.
    Due(DueSharedIncrementalTargetMaintenance),
}

/// Decide whether a scheduled retention pass runs at `now`.
///
/// `marker` is what the schedule marker records, `schedule_check` the time
/// that reading it took. A policy other than the recorded one is always due.
pub fn schedule_shared_incremental_target_maintenance(
    canonical: &[u8],
    policy: SharedIncrementalTargetPrunePolicy,
    minimum_interval: Duration,
    lock_wait: Duration,
    marker: &Option<MaintenanceMarker>,
    now: Timestamp,
    schedule_check: Duration,
) -> (schedule: SharedIncrementalTargetMaintenanceSchedule)
    ensures
        ({
            let identity = limits_identity(policy.max_age, policy.max_size_bytes);
            let due = maintenance_due(*marker, Some(minimum_interval), identity, now@);
            match schedule {
                SharedIncrementalTargetMaintenanceSchedule::Due(pass) => {
                    &&& due
                    &&& pass.schedule_root@ == joined(canonical@, encode_utf8(".ic-testkit"@))
                    &&& pass.maintenance_identity@ == identity
                    &&& pass.schedule_check == schedule_check
                },
                SharedIncrementalTargetMaintenanceSchedule::Skipped(outcome) => {
                    &&& !due
                    &&& outcome matches SharedIncrementalTargetMaintenanceOutcome::Skipped {
                        target_dir,
                        lock_wait: waited,
                        schedule_check: checked,
                    }
                    &&& target_dir@ == canonical@
                    &&& waited == lock_wait
                    &&& checked == schedule_check
                },
            }
        }),
        forall|recorded: SharedIncrementalTargetPrunePolicy|
            (*marker matches Some(last) && last.identity@ == #[trigger] limits_identity(
                recorded.max_age,
                recorded.max_size_bytes,
            )) && recorded != policy ==> schedule is Due,
{
    proof {
        assert forall|recorded: SharedIncrementalTargetPrunePolicy|
            (*marker matches Some(last) && last.identity@ == #[trigger] limits_identity(
                recorded.max_age,
                recorded.max_size_bytes,
            )) && recorded != policy implies maintenance_due(
            *marker,
            Some(minimum_interval),
            limits_identity(policy.max_age, policy.max_size_bytes),
            now@,
        ) by {
            lemma_changed_limits_are_due(
                marker->0,
                Some(minimum_interval),
                recorded.max_age,
                recorded.max_size_bytes,
                policy.max_age,
                policy.max_size_bytes,
                now@,
            );
        }
    }
    let maintenance_identity = policy.maintenance_identity();
    if !cache_maintenance_due(marker, Some(minimum_interval), maintenance_identity.as_str(), now) {
        return SharedIncrementalTargetMaintenanceSchedule::Skipped(
            SharedIncrementalTargetMaintenanceOutcome::Skipped {
                target_dir: copy_bytes(canonical),
                lock_wait,
                schedule_check,
            },
        );
    }
    SharedIncrementalTargetMaintenanceSchedule::Due(
        DueSharedIncrementalTargetMaintenance {
            schedule_root: join(canonical, ".ic-testkit".as_bytes()),
            maintenance_identity,
            schedule_check,
        },
    )
}

/// What a failed or successful pass means for the acquisition that asked for it.
///
/// Under best-effort handling a failure is attached to the acquisition;
/// otherwise it fails the acquisition.
pub fn integrated_shared_maintenance_result(
    config: SharedIncrementalTargetMaintenanceConfig,
    shared_target: &[u8],
    lock_wait: Duration,
    result: Result<SharedIncrementalTargetMaintenanceOutcome, WasmBuildError>,
) -> (integrated: Result<SharedIncrementalTargetMaintenanceOutcome, WasmBuildError>)
    ensures
        match result {
            Ok(outcome) => integrated == Ok::<
                SharedIncrementalTargetMaintenanceOutcome,
                WasmBuildError,
            >(outcome),
            Err(error) => if config.failure_mode is BestEffort {
                &&& integrated matches Ok(
                    SharedIncrementalTargetMaintenanceOutcome::Failed {
                        target_dir,
                        lock_wait: waited,
                        message,
                    },
                )
                &&& target_dir@ == shared_target@
                &&& waited == lock_wait
                &&& message@ == error_text(error)
            } else {
                integrated == Err::<SharedIncrementalTargetMaintenanceOutcome, WasmBuildError>(
                    error,
                )
            },
        },
{
    match result {
        Ok(outcome) => Ok(outcome),
        Err(error) => match config.failure_mode {
            SharedIncrementalTargetMaintenanceFailureMode::BestEffort => Ok(
                SharedIncrementalTargetMaintenanceOutcome::Failed {
                    target_dir: copy_bytes(shared_target),
                    lock_wait,
                    message: error.render(),
                },
            ),
            SharedIncrementalTargetMaintenanceFailureMode::Strict => Err(error),
        },
    }
}

/// Whether the shared target of a specification exists, from what is found at its path.
pub fn shared_incremental_target_exists(
    spec: &WasmBuildSpec,
    operation: &str,
    found: PathState,
) -> (result: Result<bool, WasmBuildError>)
    ensures
        match shared_target_path(spec@) {
            None => {
                &&& result matches Err(WasmBuildError::InvalidSpec { message })
                &&& message@ == "shared incremental target is not configured"@
            },
            Some(target) => match found {
                PathState::Directory => result == Ok::<bool, WasmBuildError>(true),
                PathState::Missing => result == Ok::<bool, WasmBuildError>(false),
                PathState::Failed { message: cause } => {
                    &&& result matches Err(WasmBuildError::Io { operation: attempted, path, source })
                    &&& attempted@ == operation@
                    &&& path@ == target
                    &&& source@ == cause@
                },
                _ => {
                    &&& result matches Err(WasmBuildError::InvalidSpec { message })
                    &&& message@ == "shared incremental Cargo target "@ + lossy_text(target)
                        + " must be a directory"@
                },
            },
        },
{
    match shared_incremental_target(spec) {
        None => Err(invalid_spec("shared incremental target is not configured")),
        Some(target) => match found {
            PathState::Directory => Ok(true),
            PathState::Missing => Ok(false),
            PathState::Failed { message } => Err(
                WasmBuildError::Io {
                    operation: operation.to_owned(),
                    path: target,
                    source: message,
                },
            ),
            PathState::File | PathState::Other => {
                let mut message = "shared incremental Cargo target ".to_owned();
                message.append(lossy(target.as_slice()).as_str());
                message.append(" must be a directory");
                Err(WasmBuildError::InvalidSpec { message })
            },
        },
    }
}

/// A retention pass that was carried out, and is recorded now.
#[derive(Debug)]
pub struct CompletedSharedIncrementalTargetMaintenance {
    /// What the pass did.
    pub maintenance: SharedIncrementalTargetMaintenance,
    /// Directory of the schedule marker.
    pub schedule_root: Vec<u8>,
    /// Identity under which the pass is recorded.
    pub maintenance_identity: String,
    /// Time spent checking the schedule marker.
    pub schedule_check: Duration,
}

/// What scheduled maintenance of a shared target does next.
#[derive(Debug)]
pub enum ScheduledMaintenance {
    /// Lock the target and read its schedule marker.
    Lock,
    /// Resolve the inputs of the build, then maintain the target.
    Maintain(DueSharedIncrementalTargetMaintenance),
    /// Record the pass in the schedule marker.
    Record(CompletedSharedIncrementalTargetMaintenance),
    /// Nothing: this is what it came to.
    Done(SharedIncrementalTargetMaintenanceOutcome),
}

impl ScheduledMaintenance {
    /// Start with what is found at the path of the target; a missing target is left alone.
    pub fn begin(spec: &WasmBuildSpec, found: PathState) -> (result: Result<Self, WasmBuildError>)
        ensures
            match shared_target_path(spec@) {
                None => {
                    &&& result matches Err(WasmBuildError::InvalidSpec { message })
                    &&& message@ == "shared incremental target is not configured"@
                },
                Some(target) => match found {
                    PathState::Directory => result
                        == Ok::<ScheduledMaintenance, WasmBuildError>(ScheduledMaintenance::Lock),
                    PathState::Missing => {
                        &&& result matches Ok(
                            ScheduledMaintenance::Done(
                                SharedIncrementalTargetMaintenanceOutcome::Missing { target_dir },
                            ),
                        )
                        &&& target_dir@ == target
                    },
                    PathState::Failed { message: cause } => {
                        &&& result matches Err(
                            WasmBuildError::Io { operation: attempted, path, source },
                        )
                        &&& attempted@
                            == "inspect shared incremental Cargo target before scheduled maintenance"@
                        &&& path@ == target
                        &&& source@ == cause@
                    },
                    _ => {
                        &&& result matches Err(WasmBuildError::InvalidSpec { message })
                        &&& message@ == "shared incremental Cargo target "@ + lossy_text(target)
                            + " must be a directory"@
                    },
                },
            },
    {
        let operation = "inspect shared incremental Cargo target before scheduled maintenance";
        if shared_incremental_target_exists(spec, operation, found)? {
            return Ok(ScheduledMaintenance::Lock);
        }
        match shared_incremental_target(spec) {
            Some(target_dir) => Ok(
                ScheduledMaintenance::Done(
                    SharedIncrementalTargetMaintenanceOutcome::Missing { target_dir },
                ),
            ),
            None => Err(invalid_spec("shared incremental target is not configured")),
        }
    }

    /// The target was locked and its marker read: the pass is due, or was made recently.
    pub fn locked(
        self,
        canonical: &[u8],
        policy: SharedIncrementalTargetPrunePolicy,
        minimum_interval: Duration,
        lock_wait: Duration,
        marker: &Option<MaintenanceMarker>,
        now: Timestamp,
        schedule_check: Duration,
    ) -> (next: Self)
        requires
            self is Lock,
        ensures
            ({
                let identity = limits_identity(policy.max_age, policy.max_size_bytes);
                if maintenance_due(*marker, Some(minimum_interval), identity, now@) {
                    &&& next matches ScheduledMaintenance::Maintain(pass)
                    &&& pass.schedule_root@ == joined(canonical@, encode_utf8(".ic-testkit"@))
                    &&& pass.maintenance_identity@ == identity
                    &&& pass.schedule_check == schedule_check
                } else {
                    &&& next matches ScheduledMaintenance::Done(
                        SharedIncrementalTargetMaintenanceOutcome::Skipped {
                            target_dir,
                            lock_wait: waited,
                            schedule_check: checked,
                        },
                    )
                    &&& target_dir@ == canonical@
                    &&& waited == lock_wait
                    &&& checked == schedule_check
                }
            }),
    {
        match schedule_shared_incremental_target_maintenance(
            canonical,
            policy,
            minimum_interval,
            lock_wait,
            marker,
            now,
            schedule_check,
        ) {
            SharedIncrementalTargetMaintenanceSchedule::Due(pass) => {
                ScheduledMaintenance::Maintain(pass)
            },
            SharedIncrementalTargetMaintenanceSchedule::Skipped(outcome) => {
                ScheduledMaintenance::Done(outcome)
            },
        }
    }

    /// The inputs were resolved and the target was maintained, or one of both failed.
    ///
    /// Only a pass that succeeded is recorded.
    pub fn maintained(
        self,
        result: Result<SharedIncrementalTargetMaintenance, WasmBuildError>,
    ) -> (next: Result<Self, WasmBuildError>)
        requires
            self is Maintain,
        ensures
            match result {
                Err(error) => next == Err::<ScheduledMaintenance, WasmBuildError>(error),
                Ok(maintenance) => next == Ok::<ScheduledMaintenance, WasmBuildError>(
                    ScheduledMaintenance::Record(
                        CompletedSharedIncrementalTargetMaintenance {
                            maintenance,
                            schedule_root: self->Maintain_0.schedule_root,
                            maintenance_identity: self->Maintain_0.maintenance_identity,
                            schedule_check: self->Maintain_0.schedule_check,
                        },
                    ),
                ),
            },
    {
        match (self, result) {
            (_, Err(error)) => Err(error),
            (ScheduledMaintenance::Maintain(pass), Ok(maintenance)) => Ok(
                ScheduledMaintenance::Record(
                    CompletedSharedIncrementalTargetMaintenance {
                        maintenance,
                        schedule_root: pass.schedule_root,
                        maintenance_identity: pass.maintenance_identity,
                        schedule_check: pass.schedule_check,
                    },
                ),
            ),
            _ => vstd::pervasive::unreached(),
        }
    }

    /// The pass was recorded, or could not be.
    pub fn recorded(self, result: Result<(), WasmBuildError>) -> (next: Result<Self, WasmBuildError>)
        requires
            self is Record,
        ensures
            match result {
                Err(error) => next == Err::<ScheduledMaintenance, WasmBuildError>(error),
                Ok(()) => next == Ok::<ScheduledMaintenance, WasmBuildError>(
                    ScheduledMaintenance::Done(
                        SharedIncrementalTargetMaintenanceOutcome::Performed {
                            maintenance: self->Record_0.maintenance,
                            schedule_check: self->Record_0.schedule_check,
                        },
                    ),
                ),
            },
    {
        match (self, result) {
            (_, Err(error)) => Err(error),
            (ScheduledMaintenance::Record(pass), Ok(())) => Ok(
                ScheduledMaintenance::Done(
                    SharedIncrementalTargetMaintenanceOutcome::Performed {
                        maintenance: pass.maintenance,
                        schedule_check: pass.schedule_check,
                    },
                ),
            ),
            _ => vstd::pervasive::unreached(),
        }
    }
}

/// A scheduled pass is skipped exactly when the last recorded pass applied the same policy less
/// than the interval ago.
///
/// So a zero interval, another policy and the lack of a recorded pass each
/// make it due.
pub proof fn lemma_skipped_after_recent_pass(
    marker: Option<MaintenanceMarker>,
    recorded: SharedIncrementalTargetPrunePolicy,
    policy: SharedIncrementalTargetPrunePolicy,
    minimum_interval: Duration,
    now: int,
)
    requires
        marker matches Some(last) ==> last.identity@ == limits_identity(
            recorded.max_age,
            recorded.max_size_bytes,
        ),
    ensures
        maintenance_due(
            marker,
            Some(minimum_interval),
            limits_identity(policy.max_age, policy.max_size_bytes),
            now,
        ) <==> !(marker matches Some(last) && recorded == policy && last.performed@ <= now && now
            - last.performed@ < minimum_interval@),
{
    if marker is Some && recorded != policy {
        lemma_changed_limits_are_due(
            marker->0,
            Some(minimum_interval),
            recorded.max_age,
            recorded.max_size_bytes,
            policy.max_age,
            policy.max_size_bytes,
            now,
        );
    }
}

} // verus!

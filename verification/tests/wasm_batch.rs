use ic_testkit::artifacts::{
    InputDigest, LabeledWasmBuildSpec, ResolvedCargoBuildInputs,
    SharedIncrementalTargetMaintenanceConfig, SharedIncrementalTargetMaintenanceFailureMode,
    SharedIncrementalTargetPrunePolicy, WasmBuildBatchConfig, WasmBuildBatchContractError,
    WasmBuildBatchProgressEvent, WasmBuildBatchReport, WasmBuildError, WasmBuildFailurePhase,
    WasmBuildOutcome, WasmBuildPhase, WasmBuildRecord, WasmBuildSpec, WasmBuildTimings,
    WasmInputResolutionTimings,
};
use ic_testkit::batch::{all_succeeded, indexed_failures, indexed_outcomes};
use ic_testkit::settings::Setting;
use ic_testkit::timing::Duration;
use ic_testkit::wasm_batch::{
    batch_attempt, closing_event, started_event, validate_batch_labels, validate_prepared,
    BatchMaintenanceTracker, BatchStep, WasmBuildBatch, WasmBuildBatchAttempt,
};
use ic_testkit::wasm_cache::command::{cargo_metadata, command_identity, CommandOutput};
use ic_testkit::wasm_cache::error::CommandStatus;
use ic_testkit::wasm_cache::identity::validate_spec;
use ic_testkit::wasm_cache::progress::PhaseLog;
use ic_testkit::wasm_cache::session::{
    group_builds, specs_equal, BatchResolutionKey, WasmBuildBatchInputMetrics,
    WasmBuildBatchInputResolver, WasmBuildInputSnapshotState, WasmBuildSessionState,
};

fn build(target: &str, packages: &[&str], profile: &str) -> WasmBuildSpec {
    WasmBuildSpec::new(
        b".",
        target.as_bytes(),
        packages.iter().map(|package| (*package).to_owned()).collect(),
        profile,
    )
}

fn no_inputs() -> WasmBuildBatchInputMetrics {
    WasmBuildBatchInputMetrics { runs: 0, reuses: 0, session_reuses: 0, prepared_reuses: 0 }
}

/// Runs a batch in which no valid specification can be built.
fn run(
    specs: &Vec<LabeledWasmBuildSpec>,
    config: WasmBuildBatchConfig,
    events: &mut Vec<WasmBuildBatchProgressEvent>,
) -> Result<WasmBuildBatchReport, WasmBuildBatchContractError> {
    let mut batch = WasmBuildBatch::begin(specs, config)?;
    for (index, entry) in specs.iter().enumerate() {
        events.push(started_event(entry.label(), index, specs.len()));
        let elapsed = Duration::from_millis(2);
        let attempt = match batch.step(entry.spec()) {
            BatchStep::Reject(error) => {
                WasmBuildBatchAttempt::invalid_spec(error, Duration::from_millis(1))
            }
            BatchStep::Build(spec) => match validate_spec(&spec) {
                Err(error) => WasmBuildBatchAttempt::invalid_spec(error, Duration::from_millis(1)),
                Ok(()) => panic!("specification is valid"),
            },
        };
        events.push(closing_event(entry.label(), index, &attempt));
        batch.record(entry.label(), attempt, elapsed);
    }
    Ok(batch.finish(no_inputs(), Duration::from_secs(1)))
}

#[test]
fn empty_independent_batch_succeeds_without_work() {
    let report = run(&Vec::new(), WasmBuildBatchConfig::new(), &mut Vec::new())
        .expect("empty labeled batch");
    assert!(report.is_success());
    assert_eq!(report.outcomes().len(), 0);
}

#[test]
fn batch_retains_every_indexed_failure() {
    let specs = vec![
        LabeledWasmBuildSpec::new("root", build("target", &[], "debug")),
        LabeledWasmBuildSpec::new("worker", build("target", &["fixture"], "")),
    ];

    let report = run(&specs, WasmBuildBatchConfig::new(), &mut Vec::new())
        .expect("valid labeled batch");

    assert!(!report.is_success());
    assert_eq!(report.entries().len(), 2);
    assert_eq!(report.entries()[0].label(), "root");
    assert_eq!(report.entries()[1].label(), "worker");
    assert_eq!(
        report.failures().iter().map(|failure| failure.label()).collect::<Vec<_>>(),
        ["root", "worker"]
    );
    assert!(report
        .failures()
        .iter()
        .all(|failure| failure.entry_elapsed().as_nanos() <= report.total().as_nanos()));
    assert!(report.failures().iter().all(|failure| {
        failure.phase() == WasmBuildFailurePhase::Specification
            && failure.timings().total().as_nanos() <= failure.entry_elapsed().as_nanos()
    }));
    assert_eq!(report.outcomes().len(), 0);
}

#[test]
fn batch_failure_retains_partial_metadata_timing() {
    let specs = vec![LabeledWasmBuildSpec::new(
        "metadata-failure",
        build("target", &["fixture"], "debug").with_cargo_program(b"cargo.sh".to_vec()),
    )];
    let mut batch = WasmBuildBatch::begin(&specs, WasmBuildBatchConfig::new()).expect("labels");
    let spec = match batch.step(specs[0].spec()) {
        BatchStep::Build(spec) => spec,
        BatchStep::Reject(_) => panic!("entry is built"),
    };
    validate_spec(&spec).expect("valid specification");
    let output = |code: i32, stdout: &[u8], stderr: &[u8]| CommandOutput {
        success: code == 0,
        status: CommandStatus { code: Some(code), text: format!("exit status: {code}") },
        stdout: stdout.to_vec(),
        stderr: stderr.to_vec(),
    };
    let mut log = PhaseLog::new();
    log.begin_phase(WasmBuildFailurePhase::ToolIdentity);
    let identity = command_identity(WasmBuildPhase::CargoIdentity, output(0, b"cargo 1.0.0\n", b""))
        .expect("identity");
    assert_eq!(identity, b"cargo 1.0.0\n".to_vec());
    log.record_phase(WasmBuildFailurePhase::ToolIdentity, Duration::from_millis(3));
    log.begin_phase(WasmBuildFailurePhase::CargoMetadata);
    let error = cargo_metadata(output(23, b"", b"synthetic metadata failure\n"))
        .expect_err("metadata failure");
    log.record_phase(WasmBuildFailurePhase::CargoMetadata, Duration::from_millis(20));
    let attempt = batch_attempt(Err(error), &log, Duration::from_millis(25));
    batch.record("metadata-failure", attempt, Duration::from_millis(26));
    let report = batch.finish(no_inputs(), Duration::from_millis(27));

    let failures = report.failures();
    let failure = &failures[0];
    assert_eq!(failure.phase(), WasmBuildFailurePhase::CargoMetadata);
    assert!(failure.timings().input_resolution().tool_identity().as_nanos() > 0);
    assert!(failure.timings().input_resolution().cargo_metadata().as_nanos() > 0);
    assert_eq!(failure.timings().cargo_build(), None);
    assert!(failure.timings().total().as_nanos() <= failure.entry_elapsed().as_nanos());
    assert_eq!(
        failure.error().render(),
        "cargo metadata failed with exit status: 23\nstdout:\n\nstderr:\nsynthetic metadata failure\n"
    );
}

#[test]
fn batch_rejects_invalid_labels_before_progress_or_build_work() {
    let invalid = build("target", &[], "debug");
    let empty = vec![LabeledWasmBuildSpec::new("", invalid.duplicate())];
    let mut events = Vec::new();
    let empty_error = run(&empty, WasmBuildBatchConfig::new(), &mut events)
        .expect_err("empty label must reject the batch");
    assert!(matches!(empty_error, WasmBuildBatchContractError::EmptyLabel { index: 0 }));
    assert_eq!(events.len(), 0);

    let duplicate = vec![
        LabeledWasmBuildSpec::new("same", invalid.duplicate()),
        LabeledWasmBuildSpec::new("same", invalid),
    ];
    match validate_batch_labels(&duplicate).expect_err("duplicate labels must reject the batch") {
        WasmBuildBatchContractError::DuplicateLabel { label, first_index, duplicate_index } => {
            assert_eq!(label, "same");
            assert_eq!(first_index, 0);
            assert_eq!(duplicate_index, 1);
        }
        other => panic!("unexpected {other:?}"),
    }
}

#[test]
fn batch_progress_retains_the_caller_label() {
    let specs = vec![LabeledWasmBuildSpec::new("root", build("target", &[], "debug"))];
    let mut events = Vec::new();

    let report =
        run(&specs, WasmBuildBatchConfig::new(), &mut events).expect("valid progress batch");

    assert!(!report.is_success());
    let labels: Vec<String> = events
        .into_iter()
        .map(|event| match event {
            WasmBuildBatchProgressEvent::BuildStarted { label, .. }
            | WasmBuildBatchProgressEvent::BuildProgress { label, .. }
            | WasmBuildBatchProgressEvent::BuildFinished { label, .. }
            | WasmBuildBatchProgressEvent::BuildFailed { label, .. } => label,
        })
        .collect();
    assert_eq!(labels, ["root", "root"]);
}

#[test]
fn batch_maintenance_configures_each_shared_target_once() {
    let maintenance = SharedIncrementalTargetMaintenanceConfig::new(
        SharedIncrementalTargetPrunePolicy::new().with_max_size_bytes(1024),
        Duration::from_secs(60),
    )
    .with_failure_mode(SharedIncrementalTargetMaintenanceFailureMode::BestEffort);
    let batch = WasmBuildBatchConfig::new().with_shared_incremental_target_maintenance(maintenance);
    let mut tracker = BatchMaintenanceTracker::new(batch.shared_incremental_target_maintenance());
    let first =
        build("exact-a", &["a"], "debug").with_shared_incremental_target(b"shared-a".to_vec());
    let second =
        build("exact-b", &["b"], "debug").with_shared_incremental_target(b"shared-a".to_vec());
    let other =
        build("exact-c", &["c"], "debug").with_shared_incremental_target(b"shared-b".to_vec());
    let isolated = build("exact-d", &["d"], "debug");

    let prepared_first =
        tracker.prepare_spec(&first).expect("first shared target must own maintenance");
    assert_eq!(prepared_first.shared_incremental_target_maintenance(), Some(maintenance));
    assert!(tracker.prepare_spec(&second).is_none());
    assert!(tracker.prepare_spec(&other).is_some());
    assert!(tracker.prepare_spec(&isolated).is_none());
}

#[test]
fn batch_maintenance_rejects_per_spec_policy_ownership() {
    let maintenance = SharedIncrementalTargetMaintenanceConfig::new(
        SharedIncrementalTargetPrunePolicy::new(),
        Duration::from_secs(60),
    );
    let spec = LabeledWasmBuildSpec::new(
        "fixture",
        build("exact", &["fixture"], "debug")
            .with_shared_incremental_target(b"shared".to_vec())
            .with_shared_incremental_target_maintenance(maintenance),
    );
    let batch = WasmBuildBatchConfig::new().with_shared_incremental_target_maintenance(maintenance);

    let report = run(&vec![spec], batch, &mut Vec::new()).expect("valid labeled batch");
    let failures = report.failures();
    assert_eq!(report.entries().len(), 1);
    assert_eq!(failures.len(), 1);
    let failure = &failures[0];
    assert_eq!(failure.index(), 0);
    assert_eq!(failure.label(), "fixture");
    assert_eq!(failure.entry_elapsed(), report.entries()[0].entry_elapsed());
    assert_eq!(failure.phase(), WasmBuildFailurePhase::Specification);
    assert!(
        matches!(failure.error(), WasmBuildError::InvalidSpec { message } if message.contains("cannot be combined"))
    );
}

fn timings(total: u64) -> WasmBuildTimings {
    WasmBuildTimings { total: Duration::from_secs(total), ..WasmBuildTimings::default() }
}

fn outcome(reused: bool, total: u64) -> WasmBuildOutcome {
    let record = WasmBuildRecord {
        fingerprint: InputDigest::from_bytes([1; 32]),
        input_digest: InputDigest::from_bytes([2; 32]),
        exact_cache_path: b"/cache".to_vec(),
        artifacts: Vec::new(),
        timings: timings(total),
        maintenance: None,
        shared_incremental_maintenance: None,
    };
    if reused {
        WasmBuildOutcome::Reused(record)
    } else {
        WasmBuildOutcome::Built(record)
    }
}

#[test]
fn metrics_count_every_entry_once() {
    let specs = vec![
        LabeledWasmBuildSpec::new("a", build("t", &["a"], "debug")),
        LabeledWasmBuildSpec::new("b", build("t", &["b"], "debug")),
        LabeledWasmBuildSpec::new("c", build("t", &["c"], "debug")),
    ];
    let mut batch = WasmBuildBatch::begin(&specs, WasmBuildBatchConfig::new()).expect("labels");
    let log = PhaseLog::new();
    batch.record("a", batch_attempt(Ok(outcome(false, 2)), &log, Duration::zero()), Duration::from_secs(2));
    let error = WasmBuildError::MissingArtifacts { paths: vec![b"x.wasm".to_vec()] };
    batch.record("b", batch_attempt(Err(error), &log, Duration::zero()), Duration::from_secs(3));
    batch.record("c", batch_attempt(Ok(outcome(true, 5)), &log, Duration::zero()), Duration::from_secs(5));
    let report = batch.finish(
        WasmBuildBatchInputMetrics { runs: 1, reuses: 2, session_reuses: 3, prepared_reuses: 4 },
        Duration::from_secs(10),
    );
    let metrics = report.metrics();
    assert_eq!(metrics.specifications(), 3);
    assert_eq!(metrics.succeeded(), 2);
    assert_eq!(metrics.failed(), 1);
    assert_eq!(metrics.built(), 1);
    assert_eq!(metrics.reused(), 1);
    assert_eq!(metrics.input_resolution_runs(), 1);
    assert_eq!(metrics.input_resolution_reuses(), 2);
    assert_eq!(metrics.input_resolution_session_reuses(), 3);
    assert_eq!(metrics.input_resolution_prepared_reuses(), 4);
    assert_eq!(metrics.successful_timings().total(), Duration::from_secs(7));
    assert_eq!(report.failures()[0].phase(), WasmBuildFailurePhase::ArtifactPublication);
    assert_eq!(report.failures()[0].index(), 1);
    assert_eq!(report.outcomes().len(), 2);
    assert_eq!(report.entry_elapsed(), [Duration::from_secs(2), Duration::from_secs(3), Duration::from_secs(5)]);
    assert_eq!(report.into_results().len(), 3);
}

fn resolved(byte: u8) -> ResolvedCargoBuildInputs {
    ResolvedCargoBuildInputs {
        fingerprint: InputDigest::from_bytes([byte; 32]),
        input_digest: InputDigest::from_bytes([byte; 32]),
        validation_digest: InputDigest::from_bytes([byte; 32]),
        inputs: Vec::new(),
        exclusions: Vec::new(),
        timings: WasmInputResolutionTimings::default(),
    }
}

#[test]
fn sessions_reuse_what_they_remember_until_invalidated() {
    let mut session = WasmBuildSessionState::new();
    let spec = build("t", &["a"], "debug");
    let other = build("t", &["b"], "debug");
    assert!(session.reuse(&spec).is_none());
    session.remember(&spec, &resolved(7));
    let again = session.reuse(&spec).expect("remembered");
    assert_eq!(again.fingerprint(), InputDigest::from_bytes([7; 32]));
    assert!(session.reuse(&other).is_none());
    assert_eq!(session.snapshot_count(), 1);
    assert_eq!(session.snapshot_reuses(), 1);
    session.invalidate();
    assert!(session.is_invalidated());
    assert!(session.reuse(&spec).is_none());
    assert!(matches!(
        ic_testkit::wasm_batch::validate_session(&session),
        Err(WasmBuildBatchContractError::SourceLeaseInvalidated)
    ));
}

#[test]
fn leases_count_what_they_serve() {
    let specs: Vec<WasmBuildSpec> =
        ["a", "b", "a", "c"].iter().map(|name| build("t", &[*name], "debug")).collect();
    let ambient: Vec<Setting> = Vec::new();
    let keys: Vec<BatchResolutionKey> =
        specs.iter().map(|spec| BatchResolutionKey::for_spec(spec, &ambient)).collect();
    let mut slow = resolved(4);
    slow.timings.total = Duration::from_secs(3);

    let mut session = WasmBuildSessionState::new();
    session.remember(&specs[0], &slow);
    session.remember(&specs[3], &slow);
    session.snapshot_reuses = 5;
    let mut resolver = WasmBuildBatchInputResolver::new(&keys);
    resolver.metrics.runs = 9;
    resolver.lease_session(&specs, &mut session);
    let expected = WasmBuildBatchInputMetrics { runs: 9, session_reuses: 3, ..no_inputs() };
    assert_eq!(resolver.metrics, expected);
    assert_eq!(session.snapshot_reuses(), 8);
    assert!(resolver.needs_resolution(1));
    assert!(resolver.assumes_sources_immutable());
    assert_eq!(resolver.take(2).expect("kept").timings().total(), Duration::zero());
    session.snapshot_reuses = usize::MAX - 1;
    WasmBuildBatchInputResolver::new(&keys).lease_session(&specs, &mut session);
    assert_eq!(session.snapshot_reuses(), usize::MAX);

    let mut snapshot = WasmBuildInputSnapshotState::begin();
    for spec in &specs {
        snapshot.prepared(spec, &slow);
    }
    let snapshot = snapshot.finish(no_inputs());
    let mut resolver = WasmBuildBatchInputResolver::new(&keys);
    resolver.metrics.prepared_reuses = 2;
    resolver.lease_prepared(&specs, &snapshot);
    assert_eq!(resolver.metrics, WasmBuildBatchInputMetrics { prepared_reuses: 6, ..no_inputs() });
    assert_eq!(resolver.take(1).expect("prepared").timings().total(), Duration::zero());
    resolver.metrics.prepared_reuses = usize::MAX - 1;
    resolver.lease_prepared(&specs, &snapshot);
    assert_eq!(resolver.metrics.prepared_reuses, usize::MAX);

    let mut resolver = WasmBuildBatchInputResolver::new(&keys);
    resolver.lease_session(&specs, &mut session);
    resolver.invalidate_source_lease(&mut session);
    assert_eq!(session.snapshot_reuses(), usize::MAX);
    assert_eq!(session.snapshot_count(), 0);
    assert!(resolver.needs_resolution(0));
}

#[test]
fn results_are_split_by_position() {
    let results: Vec<Result<char, u8>> = vec![Ok('a'), Err(1), Err(2), Ok('b')];
    assert_eq!(indexed_outcomes(&results), [(0, &'a'), (3, &'b')]);
    assert_eq!(indexed_failures(&results), [(1, &1), (2, &2)]);
    assert!(!all_succeeded(&results));
}

#[test]
fn prepared_snapshots_are_closed() {
    let known = build("t", &["a"], "debug");
    let mut state = WasmBuildInputSnapshotState::begin();
    let mut resolution = resolved(4);
    resolution.timings.total = Duration::from_secs(3);
    state.prepared(&known, &resolution);
    state.prepared(&build("t", &["b"], "debug"), &resolution);
    let state = state.finish(no_inputs());
    assert_eq!(state.specification_count(), 2);
    assert_eq!(state.preparation_timings().total(), Duration::from_secs(6));
    assert!(state.contains(&known));
    let reused = state.reuse(&known).expect("prepared");
    assert_eq!(reused.fingerprint(), InputDigest::from_bytes([4; 32]));
    assert_eq!(reused.timings().total(), Duration::zero());
    let entries = vec![
        LabeledWasmBuildSpec::new("known", known),
        LabeledWasmBuildSpec::new("unknown", build("t", &["c"], "debug")),
    ];
    match validate_prepared(&entries, &state, false) {
        Err(WasmBuildBatchContractError::SpecificationNotPrepared { index, label }) => {
            assert_eq!((index, label.as_str()), (1, "unknown"));
        }
        other => panic!("unexpected {other:?}"),
    }
    assert!(matches!(
        validate_prepared(&entries, &state, true),
        Err(WasmBuildBatchContractError::SourceLeaseInvalidated)
    ));
}

#[test]
fn builds_are_grouped_by_what_resolution_depends_on() {
    let ambient: Vec<Setting> = Vec::new();
    let first = build("t", &["a"], "debug");
    let second = build("u", &["b"], "release");
    let featured =
        build("t", &["a"], "debug").with_cargo_profile_args(vec![b"--all-features".to_vec()]);
    let keys: Vec<BatchResolutionKey> = [&first, &second, &featured, &first]
        .iter()
        .map(|spec| BatchResolutionKey::for_spec(spec, &ambient))
        .collect();
    assert!(keys[0].same_as(&keys[1]));
    assert!(!keys[0].same_as(&keys[2]));
    let grouping = group_builds(&keys);
    assert_eq!(grouping.group_by_index, [0, 0, 1, 0]);
    assert!(specs_equal(&first, &first.duplicate()));
    assert!(!specs_equal(&first, &second));
    let resolver = WasmBuildBatchInputResolver::new(&keys);
    assert!(resolver.needs_resolution(0));
    assert!(!resolver.assumes_sources_immutable());
}

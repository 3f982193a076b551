use ic_testkit::artifacts::{
    InputDigest, ResolvedCargoBuildInputs, SharedIncrementalTargetMaintenanceConfig,
    SharedIncrementalTargetMaintenanceFailureMode, SharedIncrementalTargetMaintenanceOutcome,
    SharedIncrementalTargetPrunePolicy, WasmBuildError, WasmBuildFailurePhase, WasmBuildOutcome,
    WasmBuildOutputStream, WasmBuildPhase, WasmBuildProgressConfig, WasmBuildProgressEvent,
    WasmBuildSpec, WasmBuildTimings, WasmInputResolutionTimings,
};
use ic_testkit::cache_fs::MaintenanceMarker;
use ic_testkit::paths::{join, parent, starts_with, strip_prefix};
use ic_testkit::resolution::PathState;
use ic_testkit::settings::Setting;
use ic_testkit::timing::{Duration, Timestamp};
use ic_testkit::tree::{LabeledPath, PathDigestWalk};
use ic_testkit::wasm_cache::acquire::{
    cleanup_failed_fingerprint_build, complete_build_record, plan_reuse, Acquisition,
    AcquisitionStage, BuildRecordInput, CacheMissBuild, CacheMissStage, ReusePlan,
};
use ic_testkit::wasm_cache::command::{
    cargo_build_command, cargo_identity_command, cargo_metadata, cargo_metadata_command,
    ensure_command_success, rustc_identity_command, CommandOutput,
};
use ic_testkit::wasm_cache::config::{
    cargo_configuration_directories, effective_cargo_config, effective_cargo_home,
    CargoConfigWalk, ConfigResolution,
};
use ic_testkit::wasm_cache::error::CommandStatus;
use ic_testkit::wasm_cache::identity::{
    artifact_stamp_contents, cache_entry_directory, effective_environment, expected_artifacts,
    finish_build_fingerprint, metadata_arguments, missing_artifacts, validate_spec, ArtifactState,
};
use ic_testkit::wasm_cache::inputs::{
    digested_inputs, finish_resolution, generated_roots, resolve_local_inputs,
    resolve_package_graph, source_exclusions, source_walk,
    validate_shared_incremental_target_boundary, CanonicalInput, LocalInputFingerprint,
    WorkspaceFiles,
};
use ic_testkit::wasm_cache::progress::{CapturedProcessOutput, PhaseLog};
use ic_testkit::wasm_cache::projection::{semantic_workspace_projection, FileText};
use ic_testkit::wasm_cache::shared::{
    children_to_clear, integrated_shared_maintenance_result, maintenance_report,
    schedule_shared_incremental_target_maintenance, should_clear,
    shared_incremental_target_exists, ScheduledMaintenance,
    SharedIncrementalTargetMaintenanceSchedule,
};
use std::collections::{BTreeMap, BTreeSet};

fn build(root: &str, target: &str, packages: &[&str], profile: &str) -> WasmBuildSpec {
    WasmBuildSpec::new(
        root.as_bytes(),
        target.as_bytes(),
        packages.iter().map(|package| (*package).to_owned()).collect(),
        profile,
    )
}

fn setting(name: &str, value: &str) -> Setting {
    Setting { name: name.as_bytes().to_vec(), value: Some(value.as_bytes().to_vec()) }
}

fn bytes(items: &[&str]) -> Vec<Vec<u8>> {
    items.iter().map(|item| item.as_bytes().to_vec()).collect()
}

#[test]
fn metadata_receives_only_resolution_arguments() {
    let arguments = bytes(&["--profile", "fast", "--locked", "--features=alpha,beta"]);
    assert_eq!(metadata_arguments(&arguments), bytes(&["--locked", "--features=alpha,beta"]));
    let arguments = bytes(&["--features", "a", "-F", "b", "--release", "--filter-platform"]);
    assert_eq!(
        metadata_arguments(&arguments),
        bytes(&["--features", "a", "-F", "b", "--filter-platform"])
    );
}

#[test]
fn os_native_builders_preserve_dynamic_values() {
    let spec = build(".", "target", &["fixture"], "debug")
        .with_cargo_profile_args(bytes(&["--locked"]))
        .with_extra_env(vec![setting("MODE", "exact")])
        .with_inherited_env(&bytes(&["RUSTFLAGS"]))
        .with_additional_inputs(bytes(&["schema"]));

    assert_eq!(*spec.cargo_profile_args(), bytes(&["--locked"]));
    assert_eq!(*spec.extra_env(), [setting("MODE", "exact")]);
    assert!(spec.inherited_env().iter().any(|name| name.name == b"RUSTFLAGS"));
    assert_eq!(*spec.additional_inputs(), bytes(&["schema"]));
}

const METADATA: &str = r#"{
  "packages": [
    {
      "id": "path+file:///root/fixture#0.0.0",
      "name": "fixture",
      "version": "0.0.0",
      "source": null,
      "manifest_path": "/root/fixture/Cargo.toml",
      "dependencies": [],
      "targets": [],
      "features": {}
    }
  ],
  "workspace_members": ["path+file:///root/fixture#0.0.0"],
  "workspace_root": "/root",
  "resolve": { "nodes": [{ "id": "path+file:///root/fixture#0.0.0", "deps": [], "features": [] }] }
}"#;

fn success(stdout: &str) -> CommandOutput {
    CommandOutput {
        success: true,
        status: CommandStatus { code: Some(0), text: "exit status: 0".to_owned() },
        stdout: stdout.as_bytes().to_vec(),
        stderr: Vec::new(),
    }
}

struct Files(BTreeMap<Vec<u8>, Vec<u8>>);

impl Files {
    fn names(&self, directory: &[u8]) -> Vec<Vec<u8>> {
        let mut names = BTreeSet::new();
        for path in self.0.keys() {
            if let Some(rest) = strip_prefix(path, directory) {
                names.insert(rest.split(|byte| *byte == b'/').next().unwrap().to_vec());
            }
        }
        names.into_iter().collect()
    }

    fn drive(&self, mut walk: PathDigestWalk) -> PathDigestWalk {
        loop {
            let path = match walk.next() {
                None => return walk,
                Some(pending) => pending.path.clone(),
            };
            if !walk.enter(&path).expect("declared inputs are not excluded") {
                continue;
            }
            match self.0.get(&path) {
                Some(contents) => {
                    walk.begin_file(contents.len() as u64);
                    walk.file_chunk(contents);
                    walk = walk.end_file().expect("length is kept");
                }
                None => {
                    if walk.open_directory(&path) {
                        walk.list_directory(self.names(&path));
                    }
                }
            }
        }
    }

    fn resolve(&self, spec: &WasmBuildSpec) -> Result<ResolvedCargoBuildInputs, WasmBuildError> {
        let metadata = cargo_metadata(success(METADATA))?;
        let graph = resolve_package_graph(spec, &metadata)?;
        let root = ic_testkit::wasm_cache::inputs::metadata_workspace_root(spec, &metadata);
        let files = WorkspaceFiles {
            manifest: true,
            lockfile: false,
            toolchain_toml: false,
            toolchain: false,
        };
        let projection = semantic_workspace_projection(
            &metadata,
            &graph.packages,
            &graph.closure,
            &root,
            FileText::Missing,
            Ok("[workspace]\nmembers = [\"fixture\"]\nresolver = \"2\"\n".to_owned()),
        )?;
        let local = resolve_local_inputs(spec, &graph, &root, files, Vec::new(), projection)?;
        let directories: Vec<bool> = local
            .validation_inputs
            .iter()
            .map(|input| !self.0.contains_key(&input.path))
            .collect();
        if let Some(target) = ic_testkit::wasm_cache::identity::shared_incremental_target(spec) {
            let inputs = local
                .validation_inputs
                .iter()
                .zip(&directories)
                .map(|(input, is_directory)| CanonicalInput {
                    path: input.path.clone(),
                    is_directory: *is_directory,
                })
                .collect();
            let roots = generated_roots(spec, &local.validation_inputs, &directories);
            validate_shared_incremental_target_boundary(&target, &inputs, &roots)?;
        }
        let exclusions = source_exclusions(spec, &local.validation_inputs, &directories);
        let validation = self.drive(source_walk(&local.validation_inputs, exclusions.clone()));
        let narrow = match &local.fingerprint {
            LocalInputFingerprint::Projected { inputs, .. } => {
                Some(self.drive(source_walk(inputs, exclusions.clone())))
            }
            LocalInputFingerprint::Conservative => None,
        };
        Ok(finish_resolution(
            spec,
            &effective_environment(spec, &Vec::new()),
            b"cargo 1",
            b"rustc 1",
            digested_inputs(local, exclusions, validation, narrow),
            WasmInputResolutionTimings::default(),
        ))
    }
}

fn fixture() -> Files {
    let mut files = Files(BTreeMap::new());
    files.0.insert(
        b"/root/Cargo.toml".to_vec(),
        b"[workspace]\nmembers = [\"fixture\"]\nresolver = \"2\"\n".to_vec(),
    );
    files.0.insert(
        b"/root/fixture/Cargo.toml".to_vec(),
        b"[package]\nname = \"fixture\"\nversion = \"0.0.0\"\nedition = \"2024\"\n".to_vec(),
    );
    files.0.insert(
        b"/root/fixture/src/lib.rs".to_vec(),
        b"pub fn value() -> u8 { 1 }\n".to_vec(),
    );
    files
}

#[test]
fn public_cargo_input_snapshot_detects_local_source_changes() {
    let mut files = fixture();
    let spec = build("/root", "/root/target", &["fixture"], "debug");

    let snapshot = files.resolve(&spec).expect("resolve Cargo input snapshot");
    assert!(snapshot.is_current(&files.resolve(&spec).expect("revalidate unchanged inputs")));
    assert!(snapshot.inputs().iter().any(|input| input.path() == b"/root/fixture"));
    let rehash = |files: &Files| files.drive(snapshot.content_walk(snapshot.exclusions().clone()));
    assert!(snapshot.is_content_current(rehash(&files)));

    files
        .0
        .insert(b"/root/fixture/src/lib.rs".to_vec(), b"pub fn value() -> u8 { 2 }\n".to_vec());
    let changed = files.resolve(&spec).expect("detect changed input");
    assert!(!snapshot.is_current(&changed));
    assert!(!snapshot.is_content_current(rehash(&files)));

    let unsafe_target = spec
        .duplicate()
        .with_shared_incremental_target(b"/root/fixture/src/generated-target".to_vec());
    assert!(matches!(files.resolve(&unsafe_target), Err(WasmBuildError::InvalidSpec { .. })));
    let broad_target = spec.duplicate().with_shared_incremental_target(b"/root".to_vec());
    assert!(matches!(files.resolve(&broad_target), Err(WasmBuildError::InvalidSpec { .. })));
    let safe_target = spec.with_shared_incremental_target(b"/root/target/shared".to_vec());
    assert!(files.resolve(&safe_target).is_ok());
}

#[test]
fn contents_are_current_exactly_while_nothing_changed() {
    let mut files = fixture();
    let source = b"/root/fixture/src/lib.rs";
    let spec = build("/root", "/root/target", &["fixture"], "debug");
    let snapshot = files.resolve(&spec).expect("resolve");
    let rehash = |files: &Files| files.drive(snapshot.content_walk(snapshot.exclusions().clone()));
    let original = files.0.insert(source.to_vec(), b"changed".to_vec()).expect("fixture source");
    assert!(!snapshot.is_content_current(rehash(&files)));
    assert_eq!(
        snapshot.current_validation_digest(rehash(&files)),
        files.resolve(&spec).expect("resolve").validation_digest()
    );
    files.0.insert(source.to_vec(), original);
    assert!(snapshot.is_content_current(rehash(&files)));
    files.0.insert(b"/root/fixture/src/new.rs".to_vec(), Vec::new());
    assert!(!snapshot.is_content_current(rehash(&files)));
    files.0.remove(b"/root/fixture/src/new.rs".as_slice());
    files.0.insert(b"/root/target/generated".to_vec(), b"output".to_vec());
    assert!(snapshot.is_content_current(rehash(&files)));
}

#[test]
fn comments_in_the_workspace_manifest_do_not_change_the_fingerprint() {
    let mut files = fixture();
    let spec = build("/root", "/root/target", &["fixture"], "debug");
    let before = files.resolve(&spec).expect("resolve");
    files.0.insert(b"/root/Cargo.toml".to_vec(), b"# another text\n".to_vec());
    let after = files.resolve(&spec).expect("resolve");
    assert_eq!(before.fingerprint(), after.fingerprint());
    assert_ne!(before.validation_digest(), after.validation_digest());
}

#[test]
fn unusable_metadata_is_rejected() {
    let spec = build("/root", "/root/target", &["absent"], "debug");
    let metadata = cargo_metadata(success(METADATA)).expect("metadata");
    assert!(matches!(
        resolve_package_graph(&spec, &metadata),
        Err(WasmBuildError::InvalidSpec { .. })
    ));
    let empty = cargo_metadata(success("{}")).expect("metadata");
    assert!(matches!(
        resolve_package_graph(&spec, &empty),
        Err(WasmBuildError::InvalidMetadata { .. })
    ));
    match cargo_metadata(success("no JSON")) {
        Err(WasmBuildError::InvalidMetadata { message }) => {
            assert!(message.starts_with("Cargo metadata was not valid JSON: expected"));
        }
        other => panic!("unexpected {other:?}"),
    }
}

#[test]
fn build_spec_requires_at_least_one_package() {
    let spec = build(".", "target", &[], "debug");
    assert!(matches!(validate_spec(&spec), Err(WasmBuildError::InvalidSpec { .. })));

    let isolated_maintenance = build(".", "target", &["fixture"], "debug")
        .with_shared_incremental_target_maintenance_at_most_every(
            SharedIncrementalTargetPrunePolicy::new(),
            Duration::from_secs(60),
        );
    assert!(matches!(
        validate_spec(&isolated_maintenance),
        Err(WasmBuildError::InvalidSpec { message }) if message.contains("requires a shared")
    ));
    for (spec, expected) in [
        (build(".", "t", &["p"], ""), "Cargo profile target directory must not be empty"),
        (build(".", "t", &["p"], "d").with_target(""), "Cargo compilation target must not be empty"),
        (
            build(".", "t", &["p"], "d").with_shared_incremental_target(Vec::new()),
            "shared incremental Cargo target directory must not be empty",
        ),
    ] {
        match validate_spec(&spec) {
            Err(WasmBuildError::InvalidSpec { message }) => assert_eq!(message, expected),
            other => panic!("unexpected {other:?}"),
        }
    }
    assert!(validate_spec(&build(".", "t", &["p"], "d")).is_ok());
}

#[test]
fn shared_target_inspection_is_explicit_and_does_not_create_a_missing_target() {
    let target = b"/root/missing-shared-target";
    let isolated = build("/root", "/root/exact", &["fixture"], "debug");
    assert!(matches!(
        shared_incremental_target_exists(&isolated, "inspect", PathState::Missing),
        Err(WasmBuildError::InvalidSpec { .. })
    ));

    let shared = isolated.with_shared_incremental_target(target.to_vec());
    assert!(!shared_incremental_target_exists(&shared, "inspect", PathState::Missing)
        .expect("inspect missing shared target"));
    let scheduled =
        SharedIncrementalTargetMaintenanceOutcome::Missing { target_dir: target.to_vec() };
    assert_eq!(scheduled.target_dir(), target);
    assert!(!scheduled.was_performed());
    assert_eq!(scheduled.lock_wait(), None);
    assert_eq!(scheduled.schedule_check(), None);
    assert_eq!(scheduled.render(), "target=/root/missing-shared-target action=missing");
    assert!(shared_incremental_target_exists(&shared, "inspect", PathState::Directory).unwrap());
    assert!(matches!(
        shared_incremental_target_exists(
            &shared,
            "inspect",
            PathState::Failed { message: "denied".to_owned() }
        ),
        Err(WasmBuildError::Io { .. })
    ));
}

#[test]
fn shared_target_maintenance_clears_cargo_state_but_preserves_coordination() {
    let names = bytes(&["debug", ".rustc_info.json", "CACHEDIR.TAG", ".ic-testkit"]);
    let policy = SharedIncrementalTargetPrunePolicy::new().with_max_size_bytes(0);
    let now = Timestamp::from_nanos_since_epoch(1_000);
    assert!(should_clear(policy, now, now, 139));
    assert_eq!(children_to_clear(&names), bytes(&["debug", ".rustc_info.json"]));
    let report = maintenance_report(
        b"/root/shared-target",
        true,
        139,
        11,
        now,
        Duration::zero(),
        Duration::from_millis(1),
    );
    assert!(report.was_cleared());
    assert!(report.logical_size_bytes_before() > report.logical_size_bytes_after());

    assert!(!should_clear(SharedIncrementalTargetPrunePolicy::new(), now, now, u64::MAX));
    let retained = maintenance_report(
        b"/root/shared-target",
        false,
        11,
        0,
        now,
        Duration::zero(),
        Duration::from_millis(1),
    );
    assert!(!retained.was_cleared());
    assert_eq!(retained.logical_size_bytes_before(), retained.logical_size_bytes_after());
    let aged = SharedIncrementalTargetPrunePolicy::new().with_max_age(Duration::from_nanos(10));
    let later = |nanos: u128| Timestamp::from_nanos_since_epoch(1_000 + nanos);
    assert!(!should_clear(aged, later(10), now, 0));
    assert!(should_clear(aged, later(11), now, 0));
}

#[test]
fn scheduled_shared_target_maintenance_skips_expensive_work_inside_interval() {
    let target = b"/root/shared-target";
    let policy = SharedIncrementalTargetPrunePolicy::new().with_max_size_bytes(0);
    let interval = Duration::from_secs(60 * 60);
    let at = |seconds: u64| Timestamp::from_nanos_since_epoch(u128::from(seconds) * 1_000_000_000);
    let schedule = |policy, interval, marker: &Option<MaintenanceMarker>, now| {
        schedule_shared_incremental_target_maintenance(
            target,
            policy,
            interval,
            Duration::from_millis(1),
            marker,
            now,
            Duration::from_millis(2),
        )
    };
    let due = match schedule(policy, interval, &None, at(100)) {
        SharedIncrementalTargetMaintenanceSchedule::Due(due) => due,
        other => panic!("first scheduled maintenance must be performed: {other:?}"),
    };
    assert_eq!(due.schedule_root, b"/root/shared-target/.ic-testkit".to_vec());
    let report = maintenance_report(
        target,
        true,
        128,
        0,
        at(1),
        Duration::from_millis(1),
        Duration::from_millis(3),
    );
    let first = SharedIncrementalTargetMaintenanceOutcome::Performed {
        maintenance: report,
        schedule_check: due.schedule_check,
    };
    assert!(first.was_performed());
    assert!(first.maintenance().expect("performed").was_cleared());
    assert!(first.lock_wait().is_some());
    assert!(first.schedule_check().is_some());
    assert!(first.render().contains("action=cleared"));

    let marker =
        Some(MaintenanceMarker { identity: due.maintenance_identity, performed: at(100) });
    let skipped = match schedule(policy, interval, &marker, at(200)) {
        SharedIncrementalTargetMaintenanceSchedule::Skipped(outcome) => outcome,
        other => panic!("skip recently completed shared-target maintenance: {other:?}"),
    };
    assert!(matches!(&skipped, SharedIncrementalTargetMaintenanceOutcome::Skipped { .. }));
    assert!(!skipped.was_performed());
    assert!(skipped.lock_wait().is_some());
    assert!(skipped.schedule_check().is_some());
    assert!(skipped.render().contains("action=skipped"));

    let changed_policy = SharedIncrementalTargetPrunePolicy::new().with_max_size_bytes(u64::MAX);
    assert!(matches!(
        schedule(changed_policy, interval, &marker, at(200)),
        SharedIncrementalTargetMaintenanceSchedule::Due(_)
    ));
    assert!(matches!(
        schedule(policy, Duration::zero(), &marker, at(200)),
        SharedIncrementalTargetMaintenanceSchedule::Due(_)
    ));
}

#[test]
fn only_a_successful_pass_is_recorded() {
    let spec = build("/root", "/root/exact", &["fixture"], "debug")
        .with_shared_incremental_target(b"/root/shared".to_vec());
    let policy = SharedIncrementalTargetPrunePolicy::new().with_max_size_bytes(0);
    let hour = Duration::from_secs(60 * 60);
    let at = |seconds: u64| Timestamp::from_nanos_since_epoch(u128::from(seconds) * 1_000_000_000);
    let tick = Duration::from_millis(1);
    let begin = |found| ScheduledMaintenance::begin(&spec, found);
    match begin(PathState::Missing) {
        Ok(ScheduledMaintenance::Done(outcome)) => {
            assert!(matches!(
                &outcome,
                SharedIncrementalTargetMaintenanceOutcome::Missing { target_dir }
                    if *target_dir == b"/root/shared"
            ));
        }
        other => panic!("unexpected {other:?}"),
    }
    assert!(matches!(begin(PathState::Other), Err(WasmBuildError::InvalidSpec { .. })));
    assert!(begin(PathState::Failed { message: "x".to_owned() }).is_err());
    let locked = |marker: &Option<MaintenanceMarker>, now| {
        begin(PathState::Directory).expect("a directory").locked(
            b"/root/shared",
            policy,
            hour,
            tick,
            marker,
            now,
            tick,
        )
    };
    let report = || maintenance_report(b"/root/shared", true, 9, 0, at(1), tick, tick);
    let failure = || WasmBuildError::InvalidSpec { message: "unsafe".to_owned() };
    assert!(locked(&None, at(1)).maintained(Err(failure())).is_err());
    let step = locked(&None, at(1)).maintained(Ok(report())).expect("maintained");
    let marker = match &step {
        ScheduledMaintenance::Record(pass) => {
            assert_eq!(pass.schedule_root, b"/root/shared/.ic-testkit");
            let identity = pass.maintenance_identity.clone();
            Some(MaintenanceMarker { identity, performed: at(10) })
        }
        other => panic!("unexpected {other:?}"),
    };
    match step.recorded(Ok(())) {
        Ok(ScheduledMaintenance::Done(outcome)) => assert!(outcome.was_performed()),
        other => panic!("unexpected {other:?}"),
    }
    let step = locked(&None, at(1)).maintained(Ok(report())).expect("maintained");
    assert!(step.recorded(Err(failure())).is_err());
    assert!(matches!(
        locked(&marker, at(20)),
        ScheduledMaintenance::Done(SharedIncrementalTargetMaintenanceOutcome::Skipped { .. })
    ));
    assert!(matches!(locked(&marker, at(3610)), ScheduledMaintenance::Maintain(_)));
    assert!(matches!(locked(&marker, at(9)), ScheduledMaintenance::Maintain(_)));
}

#[test]
fn best_effort_maintenance_failures_are_attached() {
    let config = SharedIncrementalTargetMaintenanceConfig::new(
        SharedIncrementalTargetPrunePolicy::new(),
        Duration::from_secs(1),
    );
    let failure = || WasmBuildError::InvalidSpec { message: "bad".to_owned() };
    assert!(integrated_shared_maintenance_result(config, b"/t", Duration::zero(), Err(failure()))
        .is_err());
    let lenient = config.with_failure_mode(SharedIncrementalTargetMaintenanceFailureMode::BestEffort);
    let outcome =
        integrated_shared_maintenance_result(lenient, b"/t", Duration::zero(), Err(failure()))
            .expect("attached");
    assert_eq!(outcome.failure_message(), Some("invalid Wasm build spec: bad"));
}

#[test]
fn zero_progress_heartbeat_is_rejected_before_build_validation() {
    let result = WasmBuildProgressConfig::new().with_heartbeat_interval(Duration::zero()).validate();
    assert!(
        matches!(result, Err(WasmBuildError::InvalidSpec { message }) if message.contains("heartbeat"))
    );
    assert!(WasmBuildProgressConfig::new().without_heartbeats().validate().is_ok());
}

#[test]
fn observed_cargo_build_forwards_raw_output_and_quiet_heartbeats() {
    let config = WasmBuildProgressConfig::new().with_heartbeat_interval(Duration::from_millis(10));
    let mut captured = CapturedProcessOutput::new();
    let mut events = Vec::new();
    for (stream, chunk) in [
        (WasmBuildOutputStream::Stdout, "observed-"),
        (WasmBuildOutputStream::Stderr, "observed-stderr"),
        (WasmBuildOutputStream::Stdout, "stdout"),
    ] {
        events.extend(captured.take_chunk(stream, chunk.as_bytes().to_vec(), config));
    }
    let mut stdout = Vec::new();
    let mut stderr = Vec::new();
    for event in &events {
        if let WasmBuildProgressEvent::CargoOutput { stream, bytes } = event {
            match stream {
                WasmBuildOutputStream::Stdout => stdout.extend_from_slice(bytes),
                WasmBuildOutputStream::Stderr => stderr.extend_from_slice(bytes),
            }
        }
    }
    assert_eq!(stdout, b"observed-stdout");
    assert_eq!(stderr, b"observed-stderr");
    assert_eq!(captured.stdout, b"observed-stdout");
    assert_eq!(captured.stderr, b"observed-stderr");
    assert_eq!(config.heartbeat_due_in(Duration::from_millis(4)), Some(Duration::from_millis(6)));
    assert_eq!(config.heartbeat_due_in(Duration::from_millis(50)), Some(Duration::zero()));
    let silent = WasmBuildProgressConfig::new().with_cargo_output(false).without_heartbeats();
    assert!(captured.take_chunk(WasmBuildOutputStream::Stdout, b"x".to_vec(), silent).is_none());
    assert_eq!(silent.heartbeat_due_in(Duration::zero()), None);
}

#[test]
fn observed_cargo_failure_retains_captured_diagnostics_and_exit_event() {
    let output = CommandOutput {
        success: false,
        status: CommandStatus { code: Some(23), text: "exit status: 23".to_owned() },
        stdout: b"failure-stdout".to_vec(),
        stderr: b"failure-stderr".to_vec(),
    };
    let error = ensure_command_success(WasmBuildPhase::CargoBuild, output)
        .expect_err("Cargo fixture must fail");
    assert!(matches!(
        error,
        WasmBuildError::CommandFailed {
            status,
            stdout,
            stderr,
            ..
        } if status.code == Some(23)
            && stdout == "failure-stdout"
            && stderr == "failure-stderr"
    ));
}

#[test]
fn commands_follow_the_specification() {
    let spec = build("/w", "/w/target", &["b", "a"], "release")
        .with_cargo_profile_args(bytes(&["--release", "--locked"]))
        .with_extra_env(vec![setting("RUSTC", "/my/rustc")])
        .with_cargo_program(b"mycargo".to_vec());
    let plan = cargo_build_command(&spec, b"/t");
    assert_eq!(plan.program, b"mycargo".to_vec());
    assert_eq!(plan.current_dir, b"/w".to_vec());
    assert_eq!(
        plan.arguments,
        bytes(&[
            "build",
            "--target",
            "wasm32-unknown-unknown",
            "--release",
            "--locked",
            "-p",
            "b",
            "-p",
            "a",
        ])
    );
    assert_eq!(plan.environment, [setting("CARGO_TARGET_DIR", "/t"), setting("RUSTC", "/my/rustc")]);
    assert_eq!(
        cargo_metadata_command(&spec).arguments,
        bytes(&["metadata", "--format-version", "1", "--locked"])
    );
    assert_eq!(cargo_identity_command(&spec).arguments, bytes(&["--version", "--verbose"]));
    assert_eq!(rustc_identity_command(&spec).program, b"/my/rustc".to_vec());
    assert_eq!(rustc_identity_command(&spec).arguments, bytes(&["-vV"]));
}

#[test]
fn failed_build_removes_its_incomplete_fingerprint_directory() {
    let failure = || WasmBuildError::InvalidSpec { message: "synthetic build failure".to_owned() };
    let mut log = PhaseLog::new();
    log.begin_phase(WasmBuildFailurePhase::CargoBuild);
    let error = cleanup_failed_fingerprint_build(
        failure(),
        b"/target/aaaa",
        Ok(()),
        &mut log,
        Duration::from_millis(1),
    );
    assert!(matches!(error, WasmBuildError::InvalidSpec { .. }));
    assert_eq!(log.failure_phase, Some(WasmBuildFailurePhase::CargoBuild));
    let error = cleanup_failed_fingerprint_build(
        failure(),
        b"/target/aaaa",
        Err("busy".to_owned()),
        &mut log,
        Duration::from_millis(1),
    );
    assert_eq!(log.failure_phase, Some(WasmBuildFailurePhase::Cleanup));
    assert_eq!(
        error.render(),
        "Wasm build failed (invalid Wasm build spec: synthetic build failure) and its incomplete target directory at /target/aaaa could not be removed: busy"
    );
}

fn discover(
    files: &BTreeMap<&str, &str>,
    spec: &WasmBuildSpec,
    workspace: &str,
) -> Result<Vec<LabeledPath>, WasmBuildError> {
    let has = |directory: &[u8], name: &str| {
        let path = String::from_utf8(join(directory, name.as_bytes())).unwrap();
        files.contains_key(path.as_str())
    };
    let mut directories = cargo_configuration_directories(workspace.as_bytes());
    directories.extend(effective_cargo_home(spec, &Vec::new(), workspace.as_bytes()));
    let roots = directories
        .iter()
        .filter_map(|directory| {
            effective_cargo_config(directory, has(directory, "config"), has(directory, "config.toml"))
        })
        .collect();
    let mut walk = CargoConfigWalk::new(workspace.as_bytes(), &roots);
    loop {
        let path = match walk.next() {
            None => return Ok(walk.finish()),
            Some(reference) => reference.path.clone(),
        };
        let name = String::from_utf8(path.clone()).unwrap();
        match files.get(name.as_str()) {
            None => {
                let message = "No such file or directory".to_owned();
                assert!(!walk.resolved(ConfigResolution::Missing { message })?);
            }
            Some(contents) => {
                if walk.resolved(ConfigResolution::Found { canonical: path })? {
                    walk.contents(Ok((*contents).to_owned()))?;
                }
            }
        }
    }
}

#[test]
fn cargo_configuration_discovery_matches_cargo_search_and_include_rules() {
    let files = BTreeMap::from([
        (
            "/root/workspace/.cargo/config",
            "include = [\"included.toml\", { path = \"missing.toml\", optional = true }]\n",
        ),
        ("/root/workspace/.cargo/config.toml", "[build]\ntarget-dir = \"ignored-by-cargo\"\n"),
        ("/root/workspace/.cargo/included.toml", "include = \"nested.toml\"\n"),
        ("/root/workspace/.cargo/nested.toml", "[build]\nincremental = false\n"),
        ("/root/.cargo/config.toml", "[net]\noffline = true\n"),
        ("/root/cargo-home/config", "[term]\nquiet = true\n"),
    ]);
    let spec = build("/root/workspace", "/root/target", &["fixture"], "debug")
        .with_extra_env(vec![setting("CARGO_HOME", "/root/cargo-home")]);
    let inputs = discover(&files, &spec, "/root/workspace")
        .expect("discover effective Cargo configuration");
    let paths = inputs
        .iter()
        .map(|input| String::from_utf8(input.path.clone()).unwrap())
        .collect::<BTreeSet<_>>();

    assert!(paths.contains("/root/workspace/.cargo/config"));
    assert!(paths.contains("/root/workspace/.cargo/included.toml"));
    assert!(paths.contains("/root/workspace/.cargo/nested.toml"));
    assert!(paths.contains("/root/.cargo/config.toml"));
    assert!(paths.contains("/root/cargo-home/config"));
    assert!(!paths.contains("/root/workspace/.cargo/config.toml"));
    assert_eq!(paths.len(), 5);
    let labels: Vec<&[u8]> = inputs.iter().map(|input| input.label.as_slice()).collect();
    assert!(labels.contains(&b"cargo-config/workspace/.cargo/config".as_slice()));
    assert_eq!(
        labels.iter().filter(|label| starts_with(label, b"cargo-config/external")).count(),
        2
    );
}

#[test]
fn required_cargo_configuration_include_is_an_exact_input() {
    let files =
        BTreeMap::from([("/root/workspace/.cargo/config.toml", "include = \"missing.toml\"\n")]);
    let spec = build("/root/workspace", "/root/target", &["fixture"], "debug")
        .with_extra_env(vec![setting("CARGO_HOME", "/root/isolated-cargo-home")]);

    let error = discover(&files, &spec, "/root/workspace")
        .expect_err("required missing include must fail input discovery");

    assert!(matches!(error, WasmBuildError::Io { .. }));
    let files = BTreeMap::from([("/root/workspace/.cargo/config.toml", "include = 7\n")]);
    assert!(matches!(
        discover(&files, &spec, "/root/workspace"),
        Err(WasmBuildError::InvalidCargoConfiguration { .. })
    ));
    let files = BTreeMap::from([("/root/workspace/.cargo/config.toml", "include = \n")]);
    assert!(matches!(
        discover(&files, &spec, "/root/workspace"),
        Err(WasmBuildError::InvalidCargoConfiguration { .. })
    ));
    let unreadable = {
        let mut walk = CargoConfigWalk::new(b"/w", &vec![b"/w/.cargo/config".to_vec()]);
        assert!(walk
            .resolved(ConfigResolution::Found { canonical: b"/w/.cargo/config".to_vec() })
            .unwrap());
        walk.contents(Err("denied".to_owned()))
    };
    assert!(matches!(unreadable, Err(WasmBuildError::Io { .. })));
}

fn digest(byte: u8) -> InputDigest {
    InputDigest::from_bytes([byte; 32])
}

fn resolved(fingerprint: u8, validation: u8) -> ResolvedCargoBuildInputs {
    ResolvedCargoBuildInputs {
        fingerprint: digest(fingerprint),
        input_digest: digest(2),
        validation_digest: digest(validation),
        inputs: Vec::new(),
        exclusions: Vec::new(),
        timings: WasmInputResolutionTimings::default(),
    }
}

#[test]
fn an_isolated_acquisition_builds_in_its_own_entry() {
    let spec = build("/w", "/w/target", &["a-b"], "debug");
    let mut acquisition = Acquisition::begin(&spec, false);
    assert_eq!(acquisition.stage, AcquisitionStage::ExactLock);
    acquisition.exact_locked(Duration::from_millis(1));
    assert_eq!(acquisition.stage, AcquisitionStage::Resolve);
    acquisition.inputs_resolved(resolved(1, 3));
    assert_eq!(acquisition.stage, AcquisitionStage::Lookup);
    acquisition.looked_up(false);
    assert_eq!(acquisition.stage, AcquisitionStage::Build);
    let entry = cache_entry_directory(&spec, digest(1));
    assert_eq!(acquisition.cargo_target(&spec), entry);
    assert_eq!(parent(&entry), Some(b"/w/target/.ic-testkit/wasm-targets".to_vec()));
    let record = complete_build_record(
        &spec,
        acquisition,
        BuildRecordInput {
            cargo_build: Some(Duration::from_secs(1)),
            input_resolution: WasmInputResolutionTimings::default(),
            maintenance: None,
            cache_maintenance: None,
            total: Duration::from_secs(2),
        },
    );
    assert_eq!(record.fingerprint(), digest(1));
    assert_eq!(record.exact_cache_path(), entry.as_slice());
    assert_eq!(
        *record.artifacts(),
        [b"/w/target/wasm32-unknown-unknown/debug/a-b.wasm".to_vec()]
    );
    assert_eq!(record.timings().lock_wait(), Duration::from_millis(1));
    assert_eq!(record.timings().total(), Duration::from_secs(2));
    assert!(!WasmBuildOutcome::Built(record).is_reused());
}

#[test]
fn only_a_build_has_a_build_time() {
    let spec = build("/w", "/w/target", &["a"], "debug");
    let tick = Duration::from_millis(1);
    let looked_up = |hit: bool| {
        let mut acquisition = Acquisition::begin(&spec, false);
        acquisition.exact_locked(tick);
        let mut inputs = resolved(1, 3);
        inputs.timings.total = tick;
        acquisition.inputs_resolved(inputs);
        acquisition.looked_up(hit);
        acquisition
    };
    let reused = looked_up(true).finish_reused(&spec, None, None, tick);
    assert!(reused.is_reused());
    assert_eq!(reused.record().timings().cargo_build(), None);
    assert_eq!(reused.record().timings().input_resolution().total(), tick);

    let mut build = CacheMissBuild::begin(&resolved(1, 3));
    build.cargo_succeeded(Duration::from_secs(1));
    build.artifacts_inspected(&Vec::new(), &Vec::new()).expect("nothing is missing");
    let mut again = resolved(1, 3);
    again.timings.total = Duration::from_secs(2);
    build.inputs_verified(&again).expect("unchanged");
    build.permit_publication(None).expect("no prepared snapshot");
    let built = looked_up(false).finish_built(&spec, &build, None, Some(tick), tick);
    assert!(!built.is_reused());
    assert_eq!(built.record().timings().cargo_build(), Some(Duration::from_secs(1)));
    assert_eq!(built.record().timings().cache_maintenance(), Some(tick));
    assert_eq!(built.record().timings().input_resolution().total(), Duration::from_secs(2));
    let total = reused.record().timings().saturating_add(built.record().timings());
    assert_eq!(total, built.record().timings().saturating_add(reused.record().timings()));
    assert_eq!(total.total(), Duration::from_millis(2));
    let nothing = WasmBuildTimings::default();
    assert_eq!(total.saturating_add(nothing), total);
    assert_eq!(nothing.saturating_add(total), total);
}

#[test]
fn a_shared_target_is_locked_only_after_a_miss() {
    let spec = build("/w", "/w/target", &["a"], "debug")
        .with_shared_incremental_target(b"/w/target/shared".to_vec());
    let tick = Duration::from_millis(1);
    let mut acquisition = Acquisition::begin(&spec, false);
    acquisition.exact_locked(tick);
    acquisition.inputs_resolved(resolved(1, 3));
    assert!(acquisition.shared.is_none());
    acquisition.looked_up(false);
    assert_eq!(acquisition.stage, AcquisitionStage::SharedLock);
    assert!(!acquisition.exact_held);
    acquisition.shared_locked(b"/real/shared".to_vec(), tick);
    acquisition.exact_locked(tick);
    assert_eq!(acquisition.stage, AcquisitionStage::Resolve);
    acquisition.inputs_resolved(resolved(1, 3));
    acquisition.looked_up(false);
    assert_eq!(acquisition.stage, AcquisitionStage::Build);
    assert_eq!(acquisition.cargo_target(&spec), b"/real/shared".to_vec());
    assert_eq!(acquisition.lock_wait, Duration::from_millis(2));

    let mut hit = Acquisition::begin(&spec, false);
    hit.exact_locked(tick);
    hit.inputs_resolved(resolved(1, 3));
    hit.looked_up(true);
    assert_eq!(hit.stage, AcquisitionStage::Reused);
    assert!(hit.shared.is_none());

    let scheduled = spec.with_shared_incremental_target_maintenance_at_most_every(
        SharedIncrementalTargetPrunePolicy::new(),
        Duration::from_secs(60),
    );
    let mut acquisition = Acquisition::begin(&scheduled, true);
    assert_eq!(acquisition.stage, AcquisitionStage::SharedLock);
    acquisition.shared_locked(b"/real/shared".to_vec(), tick);
    acquisition.exact_locked(tick);
    acquisition.inputs_resolved(resolved(1, 3));
    assert_eq!(acquisition.stage, AcquisitionStage::Maintain);
    acquisition.maintained(SharedIncrementalTargetMaintenanceOutcome::Missing {
        target_dir: b"/real/shared".to_vec(),
    });
    acquisition.looked_up(true);
    assert_eq!(acquisition.stage, AcquisitionStage::Reused);
}

#[test]
fn changed_inputs_are_never_published() {
    let mut build = CacheMissBuild::begin(&resolved(1, 3));
    build.cargo_succeeded(Duration::from_secs(1));
    build.artifacts_inspected(&Vec::new(), &Vec::new()).expect("nothing is missing");
    match build.inputs_verified(&resolved(1, 4)) {
        Err(WasmBuildError::InputsChangedDuringBuild { before, after }) => {
            assert_eq!((before, after), (digest(3), digest(4)));
        }
        other => panic!("unexpected {other:?}"),
    }
    let mut build = CacheMissBuild::begin(&resolved(1, 3));
    build.cargo_succeeded(Duration::from_secs(1));
    build.artifacts_inspected(&Vec::new(), &Vec::new()).expect("nothing is missing");
    build.inputs_verified(&resolved(1, 3)).expect("unchanged");
    assert!(matches!(
        build.permit_publication(Some(true)),
        Err(WasmBuildError::PreparedInputSnapshotInvalidated)
    ));
    let mut build = CacheMissBuild::begin(&resolved(1, 3));
    build.cargo_succeeded(Duration::from_secs(1));
    build.artifacts_inspected(&Vec::new(), &Vec::new()).expect("nothing is missing");
    build.inputs_verified(&resolved(1, 3)).expect("unchanged");
    build.permit_publication(None).expect("no prepared snapshot");
    assert_eq!(build.stage, CacheMissStage::Publish);
}

fn artifact(contents: Option<u8>, stamp: Option<String>) -> ArtifactState {
    let (is_file, bytes) = (contents.is_some(), u64::from(contents.is_some()));
    ArtifactState { is_file, bytes, digest: contents.map(digest), stamp }
}

#[test]
fn artifacts_are_reused_only_with_matching_stamps() {
    let stamp = artifact_stamp_contents(digest(1), digest(5));
    let good = || artifact(Some(5), Some(stamp.clone()));
    let tampered = || artifact(Some(6), Some(stamp.clone()));
    let plan = |published, cached| {
        plan_reuse(&vec![published], &vec![cached], digest(1), None).expect("no snapshot")
    };
    assert_eq!(plan(good(), good()), ReusePlan::Published);
    assert_eq!(plan(good(), tampered()), ReusePlan::Restored);
    assert_eq!(plan(tampered(), good()), ReusePlan::Cached);
    assert_eq!(plan(tampered(), artifact(None, None)), ReusePlan::Miss);
    assert_eq!(plan_reuse(&vec![good()], &Vec::new(), digest(2), None).unwrap(), ReusePlan::Cached);
    assert!(plan_reuse(&vec![good()], &vec![good()], digest(1), Some(true)).is_err());
    let paths = bytes(&["/a.wasm", "/b.wasm"]);
    assert_eq!(
        missing_artifacts(&paths, &vec![good(), artifact(None, None)]),
        bytes(&["/b.wasm"])
    );
}

#[test]
fn fingerprints_ignore_package_order_but_nothing_else() {
    let fingerprint = |spec: &WasmBuildSpec, cargo: &[u8], input: u8| {
        finish_build_fingerprint(spec, &effective_environment(spec, &Vec::new()), cargo, b"rustc", digest(input))
    };
    let spec = || build("/w", "/w/target", &["a", "b"], "debug");
    let base = fingerprint(&spec(), b"cargo", 1);
    let reordered = build("/elsewhere", "/other", &["b", "a", "b"], "debug");
    assert_eq!(fingerprint(&reordered, b"cargo", 1), base);
    assert_ne!(fingerprint(&spec(), b"cargo", 2), base);
    assert_ne!(fingerprint(&spec(), b"cargo 2", 1), base);
    assert_ne!(fingerprint(&spec().with_target("other"), b"cargo", 1), base);
    assert_ne!(fingerprint(&build("/w", "/w/target", &["a"], "debug"), b"cargo", 1), base);
    assert_ne!(fingerprint(&build("/w", "/w/target", &["a", "b"], "release"), b"cargo", 1), base);
    assert_ne!(
        fingerprint(&spec().with_cargo_profile_args(bytes(&["--locked"])), b"cargo", 1),
        base
    );
    assert_ne!(fingerprint(&spec().with_extra_env(vec![setting("A", "1")]), b"cargo", 1), base);
    assert_eq!(
        expected_artifacts(&spec(), b"/t"),
        bytes(&["/t/wasm32-unknown-unknown/debug/a.wasm", "/t/wasm32-unknown-unknown/debug/b.wasm"])
    );
}

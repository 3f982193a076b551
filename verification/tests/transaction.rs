use ic_testkit::artifacts::{
    ArtifactBuildTransaction, ArtifactCacheArtifact, ArtifactCacheBatchContractError,
    ArtifactCacheBatchFailure, ArtifactCacheBatchFailurePhase, ArtifactCacheBatchReport,
    ArtifactCacheError, ArtifactCacheMaintenance, ArtifactCacheOutcome, ArtifactCachePreparation,
    ArtifactCachePrunePolicy, ArtifactCachePruneReport, ArtifactCacheSpec, ArtifactCacheTimings,
    ArtifactOutputValidation, InputDigest, LabeledArtifactCacheSpec, ResolvedCargoBuildInputs,
    WasmBuildError, WasmBuildSpec, WasmInputResolutionTimings,
};
use ic_testkit::cache_fs::{
    is_sha256_directory, last_used_time, prune_direct_child_directories, write_last_used,
    CacheEntry, MaintenanceMarker, LAST_USED_FILE,
};
use ic_testkit::digest::digest_bytes;
use ic_testkit::paths::{file_name, join, starts_with, strip_prefix};
use ic_testkit::resolution::{PathProbe, PathState};
use ic_testkit::timing::{Duration, Timestamp};
use ic_testkit::transaction::acquire::{
    maintenance_to_perform, revalidate_cargo_build_input_fingerprints, Preparation,
    PreparationStage,
};
use ic_testkit::transaction::boundaries::{
    validate_filesystem_boundaries, BoundaryObservations, DestinationObservation, PathObservation,
};
use ic_testkit::transaction::error::InvalidOutput;
use ic_testkit::transaction::key::{
    declared_walk, resolve_content_key, KeyResolution, ResolvedKey,
};
use ic_testkit::transaction::layout::{
    content_lock_path, coordination_lock_path, entries_directory, entry_directory,
    is_same_key_staging, namespace_directory, namespace_lock_path, outputs_directory,
    staged_output_path, staging_content_key, staging_directory_for, staging_root, MANIFEST_FILE,
};
use ic_testkit::transaction::outputs::{
    admits, cache_entry_is_valid, inspect_complete_output_set, manifest_contents, materialization,
    ArtifactInfo, ArtifactObservation, EntryObservation, StagingObservation, OUTPUT_DOMAIN,
};
use ic_testkit::transaction::spec::Variable;
use ic_testkit::transaction::validation::{validate_prune_request, validate_spec};
use ic_testkit::transaction_batch::{settle_entry, validate_batch_labels, EntryCourse, EntryStep};
use std::collections::{BTreeMap, BTreeSet};

/// A file system in memory.
struct Disk {
    files: BTreeMap<Vec<u8>, Vec<u8>>,
    directories: BTreeSet<Vec<u8>>,
    links: BTreeMap<Vec<u8>, Vec<u8>>,
    clock: u128,
    sequence: u64,
    locked: BTreeSet<Vec<u8>>,
}

impl Disk {
    fn new() -> Disk {
        Disk {
            files: BTreeMap::new(),
            directories: BTreeSet::new(),
            links: BTreeMap::new(),
            clock: 0,
            sequence: 0,
            locked: BTreeSet::new(),
        }
    }

    fn write(&mut self, path: &[u8], contents: &[u8]) {
        self.files.insert(path.to_vec(), contents.to_vec());
    }

    fn read(&self, path: &[u8]) -> &[u8] {
        self.files.get(path).expect("file exists")
    }

    fn is_directory(&self, path: &[u8]) -> bool {
        path == b"/"
            || self.directories.contains(path)
            || self.files.keys().any(|file| file != path && starts_with(file, path))
            || self.directories.iter().any(|other| starts_with(other, path))
    }

    fn is_there(&self, path: &[u8]) -> bool {
        self.files.contains_key(path) || self.is_directory(path)
    }

    fn state(&self, path: &[u8]) -> PathState {
        if self.files.contains_key(path) {
            PathState::File
        } else if self.is_directory(path) {
            PathState::Directory
        } else {
            PathState::Missing
        }
    }

    fn canonical(&self, path: &[u8]) -> Result<Vec<u8>, String> {
        let mut resolved: Vec<u8> = b"/".to_vec();
        for part in path.split(|byte| *byte == b'/') {
            match part {
                b"" | b"." => continue,
                b".." => resolved = ic_testkit::paths::parent(&resolved).unwrap_or(b"/".to_vec()),
                name => {
                    resolved = join(&resolved, name);
                    if let Some(target) = self.links.get(&resolved) {
                        resolved = target.clone();
                    }
                    if !self.is_there(&resolved) {
                        return Err("No such file or directory".to_owned());
                    }
                }
            }
        }
        Ok(resolved)
    }

    fn resolve(&self, path: &[u8]) -> Vec<u8> {
        let mut probe = PathProbe::new(path);
        while let Some(candidate) = probe.next() {
            match self.canonical(&candidate) {
                Ok(canonical) => probe.found(canonical),
                Err(_) => probe.missing(),
            }
        }
        probe.finish()
    }

    fn children(&self, directory: &[u8]) -> Vec<Vec<u8>> {
        let mut names = BTreeSet::new();
        for path in self.files.keys().chain(&self.directories) {
            if let Some(rest) = strip_prefix(path, directory) {
                let first = rest.split(|byte| *byte == b'/').next().unwrap().to_vec();
                if !first.is_empty() {
                    names.insert(first);
                }
            }
        }
        names.into_iter().collect()
    }

    fn remove(&mut self, path: &[u8]) {
        self.files.retain(|file, _| !starts_with(file, path));
        self.directories.retain(|directory| !starts_with(directory, path));
    }

    fn rename(&mut self, from: &[u8], to: &[u8]) {
        let moved: Vec<(Vec<u8>, Vec<u8>)> = self
            .files
            .iter()
            .filter_map(|(path, contents)| {
                strip_prefix(path, from).map(|rest| (join(to, &rest), contents.clone()))
            })
            .collect();
        self.remove(from);
        self.files.extend(moved);
    }

    fn size(&self, directory: &[u8]) -> u64 {
        self.files
            .iter()
            .filter(|(path, _)| starts_with(path, directory))
            .map(|(_, contents)| contents.len() as u64)
            .sum()
    }

    fn now(&mut self) -> Timestamp {
        self.clock += 1_000_000_000;
        Timestamp::from_nanos_since_epoch(self.clock)
    }

    fn declared_digest(&self, spec: &ArtifactCacheSpec) -> InputDigest {
        let excluded = vec![self.resolve(spec.cache_root())];
        let mut walk = declared_walk(spec, excluded);
        loop {
            let path = match walk.next() {
                None => return walk.finish(),
                Some(pending) => pending.path.clone(),
            };
            let canonical = self.canonical(&path).expect("input exists");
            if !walk.enter(&canonical).expect("inputs lie outside the cache") {
                continue;
            }
            match self.files.get(&canonical) {
                Some(contents) => {
                    walk.begin_file(contents.len() as u64);
                    walk.file_chunk(contents);
                    walk = walk.end_file().expect("length is kept");
                }
                None => {
                    if walk.open_directory(&canonical) {
                        walk.list_directory(self.children(&canonical));
                    }
                }
            }
        }
    }

    fn resolve_key(&self, spec: &ArtifactCacheSpec) -> ResolvedKey {
        let resolution = KeyResolution::begin(spec, self.declared_digest(spec));
        assert!(resolution.next().is_none());
        resolution.resolve_key(spec)
    }

    fn observe_path(&self, path: &[u8]) -> PathObservation {
        let canonical = self.canonical(path);
        let is_directory = Ok(canonical.as_ref().is_ok_and(|found| self.is_directory(found)));
        PathObservation { canonical, is_directory }
    }

    fn boundaries(&self, spec: &ArtifactCacheSpec) -> BoundaryObservations {
        BoundaryObservations {
            cache_root: Ok(self.resolve(spec.cache_root())),
            inputs: spec.inputs().iter().map(|input| self.observe_path(&input.path)).collect(),
            tools: spec.tools().iter().map(|tool| self.observe_path(&tool.path)).collect(),
            cargo_inputs: Vec::new(),
            outputs: spec
                .outputs()
                .iter()
                .map(|output| {
                    let destination = self.resolve(&output.destination);
                    let state = self.state(&destination);
                    DestinationObservation { destination: Ok(destination), state }
                })
                .collect(),
        }
    }

    fn observe_artifacts(&self, spec: &ArtifactCacheSpec, root: &[u8]) -> Vec<ArtifactObservation> {
        spec.outputs()
            .iter()
            .enumerate()
            .map(|(index, output)| {
                let path = staged_output_path(root, index);
                let state = self.state(&path);
                let contents = self.files.get(&path);
                let length = contents.map_or(0, |contents| contents.len() as u64);
                let admitted = admits(&state, length, output.validation);
                let info = contents.filter(|_| admitted).map(|contents| {
                    Ok(ArtifactInfo { bytes: length, digest: digest_bytes(OUTPUT_DOMAIN, contents) })
                });
                ArtifactObservation { state, length, contents: info }
            })
            .collect()
    }

    fn observe_entry(&self, spec: &ArtifactCacheSpec, entry: &[u8]) -> EntryObservation {
        let manifest = join(entry, MANIFEST_FILE.as_bytes());
        EntryObservation {
            entry: self.state(entry),
            children: Ok(self.children(entry)),
            outputs: self.state(&outputs_directory(entry)),
            last_used: self.state(&join(entry, LAST_USED_FILE.as_bytes())),
            manifest: self.state(&manifest),
            manifest_contents: Ok(self.files.get(&manifest).cloned().unwrap_or_default()),
            artifacts: self.observe_artifacts(spec, entry),
            output_children: Ok(self.children(&outputs_directory(entry))),
        }
    }

    fn materialize(&mut self, spec: &ArtifactCacheSpec, entry: &[u8]) {
        for step in materialization(spec, entry) {
            let contents = self.read(&step.from).to_vec();
            self.write(&step.to, &contents);
        }
    }

    fn touch(&mut self, entry: &[u8]) {
        let now = self.now();
        let record = write_last_used(entry, now).expect("after the epoch");
        self.write(&record.path, record.contents.as_bytes());
    }

    fn prune(
        &mut self,
        cache_root: &[u8],
        namespace: &[u8],
        policy: ArtifactCachePrunePolicy,
        protected: Option<&[u8]>,
    ) -> ArtifactCachePruneReport {
        let root = entries_directory(namespace);
        let entries = self
            .children(&root)
            .iter()
            .filter(|name| is_sha256_directory(name))
            .map(|name| {
                let path = join(&root, name);
                let record = self
                    .files
                    .get(&join(&path, LAST_USED_FILE.as_bytes()))
                    .map(|contents| String::from_utf8(contents.clone()).unwrap());
                let modified = Timestamp::from_nanos_since_epoch(0);
                CacheEntry {
                    bytes: self.size(&path),
                    last_used: last_used_time(record.as_deref(), modified),
                    path,
                }
            })
            .collect();
        let now = self.now();
        let plan = prune_direct_child_directories(entries, now, policy, protected);
        for path in &plan.removals {
            self.remove(path);
        }
        let mut report = plan.report;
        let staging = staging_root(namespace);
        for name in self.children(&staging) {
            let path = join(&staging, &name);
            let Some(key) = staging_content_key(&name) else {
                continue;
            };
            let key = String::from_utf8(key).unwrap();
            let lock = ic_testkit::transaction::layout::content_lock_path_for_key(cache_root, &key);
            if !self.is_directory(&path) || self.locked.contains(&lock) {
                continue;
            }
            let bytes = self.size(&path);
            self.remove(&path);
            report.record_uncommitted_removal(bytes);
        }
        report
    }

    fn maintain(
        &mut self,
        spec: &ArtifactCacheSpec,
        namespace: &[u8],
        entry: &[u8],
    ) -> Option<ArtifactCacheMaintenance> {
        let now = self.now();
        let policy = maintenance_to_perform(spec, &None, now)?;
        let report = self.prune(spec.cache_root(), namespace, policy, Some(entry));
        Some(ArtifactCacheMaintenance::Pruned(report))
    }

    fn prepare(
        &mut self,
        spec: &ArtifactCacheSpec,
    ) -> Result<ArtifactCachePreparation, ArtifactCacheError> {
        validate_spec(spec)?;
        validate_filesystem_boundaries(spec, &self.boundaries(spec))?;
        let namespace = namespace_directory(spec);
        self.directories.insert(entries_directory(&namespace));
        revalidate_cargo_build_input_fingerprints(spec, Vec::new())?;
        let tick = Duration::from_millis(1);
        let mut preparation = Preparation::begin(tick, tick);
        loop {
            match preparation.stage {
                PreparationStage::Capture => {
                    let resolved = self.resolve_key(spec);
                    preparation.captured(resolved, tick);
                }
                PreparationStage::Verify(_) => {
                    let after = self.resolve_key(spec);
                    preparation.verified(after, tick, tick);
                }
                PreparationStage::Lookup(resolved) => {
                    let entry = entry_directory(&namespace, resolved.key);
                    let observed = self.observe_entry(spec, &entry);
                    let reusable = cache_entry_is_valid(spec, resolved.key, &entry, &observed)?;
                    preparation.looked_up(reusable, tick, tick);
                }
                PreparationStage::Materialize(resolved) => {
                    self.materialize(spec, &entry_directory(&namespace, resolved.key));
                    let after = self.resolve_key(spec);
                    preparation.materialized(after, tick, tick);
                }
                PreparationStage::Reused(resolved) => {
                    let entry = entry_directory(&namespace, resolved.key);
                    self.touch(&entry);
                    let maintenance = self.maintain(spec, &namespace, &entry);
                    return Ok(ArtifactCachePreparation::Reused(
                        preparation.finish_reused(spec, maintenance, None, tick),
                    ));
                }
                PreparationStage::Build(resolved) => {
                    let entry = entry_directory(&namespace, resolved.key);
                    self.remove(&entry);
                    let root = staging_root(&namespace);
                    for name in self.children(&root) {
                        if is_same_key_staging(&name, resolved.key) {
                            self.remove(&join(&root, &name));
                        }
                    }
                    self.sequence += 1;
                    let staging = staging_directory_for(&namespace, resolved.key, 7, self.sequence);
                    self.directories.insert(outputs_directory(&staging));
                    self.locked.insert(content_lock_path(spec, resolved.key));
                    return Ok(ArtifactCachePreparation::Build(
                        preparation.into_transaction(spec, staging, entry, namespace),
                    ));
                }
                PreparationStage::GivenUp => return Err(preparation.given_up()),
            }
        }
    }

    fn begin(&mut self, spec: &ArtifactCacheSpec) -> ArtifactBuildTransaction {
        match self.prepare(spec).expect("prepare") {
            ArtifactCachePreparation::Build(transaction) => transaction,
            ArtifactCachePreparation::Reused(_) => panic!("expected a cache miss transaction"),
        }
    }

    fn try_commit(
        &mut self,
        transaction: &mut ArtifactBuildTransaction,
    ) -> Result<ArtifactCacheOutcome, ArtifactCacheError> {
        let tick = Duration::from_millis(1);
        let staging = transaction.staging_directory().to_vec();
        let spec = transaction.spec.duplicate();
        let observed = StagingObservation {
            outputs: self.state(&outputs_directory(&staging)),
            artifacts: self.observe_artifacts(&spec, &staging),
            output_children: Ok(self.children(&outputs_directory(&staging))),
            root_children: Ok(self.children(&staging)),
        };
        let info = inspect_complete_output_set(&spec, &staging, &observed)?;
        transaction.validated(tick, tick);
        transaction.confirmed(self.resolve_key(&spec), tick)?;
        let manifest = manifest_contents(transaction.resolved.key, &spec, &info);
        self.write(&join(&staging, MANIFEST_FILE.as_bytes()), manifest.as_bytes());
        let entry = transaction.entry_directory.clone();
        self.remove(&entry);
        self.rename(&staging, &entry);
        transaction.published(tick, tick);
        self.materialize(&spec, &entry);
        self.touch(&entry);
        let namespace = transaction.namespace_directory.clone();
        let maintenance = self.maintain(&spec, &namespace, &entry);
        Ok(transaction.finish(tick, maintenance, None, tick))
    }

    fn commit(
        &mut self,
        mut transaction: ArtifactBuildTransaction,
    ) -> Result<ArtifactCacheOutcome, ArtifactCacheError> {
        let result = self.try_commit(&mut transaction);
        self.locked.remove(&content_lock_path(&transaction.spec, transaction.resolved.key));
        result.map_err(|error| {
            let removal = if transaction.is_armed() {
                self.remove(&transaction.staging_directory);
                Some(Ok(()))
            } else {
                None
            };
            transaction.commit_failed(error, removal)
        })
    }

    fn abort(&mut self, transaction: ArtifactBuildTransaction) -> Result<(), ArtifactCacheError> {
        self.remove(&transaction.staging_directory);
        self.locked.remove(&content_lock_path(&transaction.spec, transaction.resolved.key));
        transaction.abort(Ok(()))
    }

    fn build_output(&mut self, spec: &ArtifactCacheSpec, contents: &[u8]) -> ArtifactCacheOutcome {
        let transaction = self.begin(spec);
        self.write(&transaction.output_path("output").unwrap(), contents);
        self.commit(transaction).expect("commit output")
    }

    fn is_reused(&mut self, spec: &ArtifactCacheSpec) -> bool {
        match self.prepare(spec).expect("prepare") {
            ArtifactCachePreparation::Reused(_) => true,
            ArtifactCachePreparation::Build(transaction) => {
                self.abort(transaction).expect("abort");
                false
            }
        }
    }
}

fn new_spec(namespace: &str, recipe: &str) -> ArtifactCacheSpec {
    ArtifactCacheSpec::new(b"/r/cache", namespace, recipe)
}

fn disk_with_input() -> Disk {
    let mut disk = Disk::new();
    disk.write(b"/r/input", b"input");
    disk
}

fn arguments(items: &[&str]) -> Vec<Vec<u8>> {
    items.iter().map(|item| item.as_bytes().to_vec()).collect()
}

fn variable(name: &str, value: &str) -> Vec<Variable> {
    vec![Variable { name: name.as_bytes().to_vec(), value: value.as_bytes().to_vec() }]
}

#[test]
fn os_native_argument_and_environment_builders_affect_identity() {
    let disk = disk_with_input();
    let base = new_spec("native", "recipe/v1")
        .with_input("input", b"/r/input")
        .with_output("output", b"/r/output");
    let with_arguments = base.duplicate().with_arguments(arguments(&["--exact"]));
    let environment = base.duplicate().with_environment(&variable("MODE", "exact"));
    let unset = base.duplicate().with_unset_environment(&arguments(&["MODE"]));

    let base_key = disk.resolve_key(&base).key;
    assert_ne!(base_key, disk.resolve_key(&with_arguments).key);
    assert_ne!(base_key, disk.resolve_key(&environment).key);
    assert_ne!(base_key, disk.resolve_key(&unset).key);
}

#[test]
fn non_utf8_argument_bytes_affect_artifact_identity_exactly() {
    let disk = disk_with_input();
    let base = new_spec("native", "recipe/v1")
        .with_input("input", b"/r/input")
        .with_output("output", b"/r/output");
    let first = base.duplicate().with_arguments(vec![vec![b'a', 0xff]]);
    let second = base.with_arguments(vec![vec![b'a', 0xfe]]);

    assert_ne!(disk.resolve_key(&first).key, disk.resolve_key(&second).key);
}

#[test]
fn one_output_is_built_materialized_repaired_and_reused() {
    let mut disk = Disk::new();
    disk.write(b"/r/input.wasm", b"raw-wasm");
    let destination = b"/r/public/optimized.wasm";
    let spec = new_spec("optimizer", "pipeline/v1")
        .with_input("raw-wasm", b"/r/input.wasm")
        .with_arguments(arguments(&["-O3", "--strip-debug"]))
        .with_output("optimized.wasm", destination);
    assert!(!starts_with(destination, spec.cache_root()));

    let transaction = disk.begin(&spec);
    disk.write(
        &transaction.output_path("optimized.wasm").expect("declared output path"),
        b"optimized-wasm",
    );
    let built = disk.commit(transaction).expect("commit artifact transaction");

    assert!(matches!(built, ArtifactCacheOutcome::Built(_)));
    assert_eq!(disk.read(destination), b"optimized-wasm");
    disk.write(destination, b"tampered-public-output");

    let reused = disk.prepare(&spec).expect("prepare exact reuse");
    let record = reused.reused_record().expect("expected exact reuse");
    assert_eq!(record.key(), built.record().key());
    assert_eq!(record.artifacts()[0].name(), "optimized.wasm");
    assert_eq!(disk.read(destination), b"optimized-wasm");
    assert!(record.timings().caller_build().is_none());
}

#[test]
fn multi_output_commit_is_complete_and_name_order_independent() {
    let mut disk = Disk::new();
    disk.write(b"/r/source", b"source");
    let spec = new_spec("release-set", "recipe/v2")
        .with_input("source", b"/r/source")
        .with_output("role-b.wasm", b"/r/public/role-b.wasm")
        .with_output("metadata.json", b"/r/public/metadata.json")
        .with_output("root.wasm", b"/r/public/root.wasm");
    let reordered = new_spec("release-set", "recipe/v2")
        .with_input("source", b"/r/source")
        .with_output("root.wasm", b"/r/public/root.wasm")
        .with_output("role-b.wasm", b"/r/public/role-b.wasm")
        .with_output("metadata.json", b"/r/public/metadata.json");
    assert_eq!(format!("{:?}", spec.summary()), format!("{:?}", reordered.summary()));
    assert_eq!(disk.resolve_key(&spec).key, disk.resolve_key(&reordered).key);
    let transaction = disk.begin(&spec);
    for (name, contents) in [
        ("root.wasm", b"root".as_slice()),
        ("role-b.wasm", b"role-b".as_slice()),
        ("metadata.json", b"{}".as_slice()),
    ] {
        disk.write(&transaction.output_path(name).unwrap(), contents);
    }

    let outcome = disk.commit(transaction).expect("commit complete output set");

    assert_eq!(
        outcome.record().artifacts().iter().map(ArtifactCacheArtifact::name).collect::<Vec<_>>(),
        ["metadata.json", "role-b.wasm", "root.wasm"],
    );
    assert!(matches!(disk.prepare(&spec).unwrap(), ArtifactCachePreparation::Reused(_)));
}

#[test]
fn incomplete_output_set_fails_and_removes_staging() {
    let mut disk = disk_with_input();
    let spec = new_spec("batch", "recipe/v1")
        .with_input("input", b"/r/input")
        .with_output("first", b"/r/first")
        .with_output("second", b"/r/second");
    let transaction = disk.begin(&spec);
    assert!(matches!(
        transaction.output_path("undeclared"),
        Err(ArtifactCacheError::UnknownOutput { .. })
    ));
    disk.write(&transaction.output_path("first").unwrap(), b"first");
    let staging = transaction.staging_directory().to_owned();

    let error = disk.commit(transaction).expect_err("partial transaction must fail");

    assert!(matches!(error, ArtifactCacheError::InvalidOutputs { .. }));
    assert!(!disk.is_there(&staging));
    assert!(matches!(disk.prepare(&spec).unwrap(), ArtifactCachePreparation::Build(_)));
}

#[test]
fn changed_inputs_reject_commit_and_remove_staging() {
    let mut disk = Disk::new();
    disk.write(b"/r/input", b"before");
    let spec = new_spec("transform", "recipe/v1")
        .with_input("input", b"/r/input")
        .with_output("output", b"/r/output");
    let transaction = disk.begin(&spec);
    disk.write(&transaction.output_path("output").unwrap(), b"output");
    let staging = transaction.staging_directory().to_owned();
    disk.write(b"/r/input", b"after");

    let error = disk.commit(transaction).expect_err("input race must reject commit");

    assert!(matches!(error, ArtifactCacheError::InputsChangedDuringBuild { .. }));
    assert!(!disk.is_there(&staging));
}

#[test]
fn every_declared_identity_dimension_changes_the_content_key() {
    let mut disk = Disk::new();
    disk.write(b"/r/input", b"input-v1");
    disk.write(b"/r/tool", b"tool-v1");
    struct Parts {
        namespace: &'static str,
        recipe: &'static str,
        input_label: &'static str,
        tool_label: &'static str,
        identity: &'static [u8],
        output: &'static str,
        validation: ArtifactOutputValidation,
        scope: &'static str,
        destination: &'static [u8],
    }
    let parts = || Parts {
        namespace: "identity",
        recipe: "recipe/v1",
        input_label: "input",
        tool_label: "optimizer",
        identity: b"one",
        output: "output",
        validation: ArtifactOutputValidation::NonEmptyFile,
        scope: "identity",
        destination: b"/r/output",
    };
    let make = |parts: Parts| {
        new_spec(parts.namespace, parts.recipe)
            .with_coordination_scope(parts.scope)
            .with_input(parts.input_label, b"/r/input")
            .with_tool(parts.tool_label, b"/r/tool")
            .with_arguments(arguments(&["-O2"]))
            .with_environment(&variable("MODE", "release"))
            .with_identity_bytes("pipeline", parts.identity)
            .with_output_validation(parts.output, parts.destination, parts.validation)
    };
    let base = make(parts());
    let original = disk.resolve_key(&base).key;
    let mut changed = vec![
        disk.resolve_key(&make(Parts { namespace: "identity-other", ..parts() })).key,
        disk.resolve_key(&base.duplicate().with_arguments(arguments(&["-O3"]))).key,
        disk.resolve_key(&base.duplicate().with_environment(&variable("MODE", "size-optimized")))
            .key,
        disk.resolve_key(&base.duplicate().with_unset_environment(&arguments(&["MODE"]))).key,
        disk.resolve_key(&make(Parts { recipe: "recipe/v2", ..parts() })).key,
        disk.resolve_key(&make(Parts { identity: b"two", ..parts() })).key,
        disk.resolve_key(&make(Parts { input_label: "renamed-input", ..parts() })).key,
        disk.resolve_key(&make(Parts { tool_label: "renamed-optimizer", ..parts() })).key,
        disk.resolve_key(&make(Parts {
            validation: ArtifactOutputValidation::RegularFile,
            ..parts()
        }))
        .key,
        disk.resolve_key(&make(Parts { output: "renamed-output", ..parts() })).key,
    ];
    disk.write(b"/r/tool", b"tool-v2");
    changed.push(disk.resolve_key(&base).key);
    disk.write(b"/r/tool", b"tool-v1");
    disk.write(b"/r/input", b"input-v2");
    changed.push(disk.resolve_key(&base).key);

    for changed in changed {
        assert_ne!(original, changed);
    }

    disk.write(b"/r/input", b"input-v1");
    let unkeyed_changes =
        make(Parts { scope: "another-lock", destination: b"/r/another-output", ..parts() });
    assert_eq!(original, disk.resolve_key(&unkeyed_changes).key);
}

#[test]
fn tampered_cache_entry_is_rebuilt_instead_of_reused() {
    let mut disk = disk_with_input();
    let spec = new_spec("tamper", "recipe/v1")
        .with_input("input", b"/r/input")
        .with_output("output", b"/r/output");
    let outcome = disk.build_output(&spec, b"valid");
    let entry = entry_directory(&namespace_directory(&spec), outcome.record().key());
    disk.write(&join(&entry, b"outputs/0000.artifact"), b"tampered");

    let rebuilt = disk.prepare(&spec).expect("prepare after corruption");

    assert!(matches!(rebuilt, ArtifactCachePreparation::Build(_)));
}

#[test]
fn malformed_manifests_and_nondirectory_entries_are_rebuilt() {
    let mut disk = disk_with_input();
    let spec = new_spec("malformed", "recipe/v1")
        .with_input("input", b"/r/input")
        .with_output("output", b"/r/output");
    let outcome = disk.build_output(&spec, b"valid");
    let entry = entry_directory(&namespace_directory(&spec), outcome.record().key());
    disk.write(&join(&entry, MANIFEST_FILE.as_bytes()), &[0xff, 0xfe]);

    let transaction = disk.begin(&spec);
    assert!(!disk.is_there(&entry));
    disk.abort(transaction).expect("abort manifest recovery");

    disk.write(&entry, b"not a directory");
    let transaction = disk.begin(&spec);
    assert!(!disk.is_there(&entry));
    disk.abort(transaction).expect("abort nondirectory recovery");
}

#[test]
fn undeclared_entry_root_files_are_never_published_or_reused() {
    let mut disk = disk_with_input();
    let spec = new_spec("root-schema", "recipe/v1")
        .with_input("input", b"/r/input")
        .with_output("output", b"/r/output");
    let transaction = disk.begin(&spec);
    disk.write(&transaction.output_path("output").unwrap(), b"output");
    disk.write(&join(transaction.staging_directory(), b"build.log"), b"log");
    assert!(matches!(
        disk.commit(transaction),
        Err(ArtifactCacheError::InvalidOutputs { .. })
    ));

    let transaction = disk.begin(&spec);
    let outputs = join(transaction.staging_directory(), b"outputs");
    disk.remove(&outputs);
    disk.write(&outputs, b"not a directory");
    assert!(matches!(
        disk.commit(transaction),
        Err(ArtifactCacheError::InvalidOutputs { .. })
    ));

    let outcome = disk.build_output(&spec, b"valid");
    let entry = entry_directory(&namespace_directory(&spec), outcome.record().key());
    disk.write(&join(&entry, b"unexpected"), b"extra");
    let transaction = disk.begin(&spec);
    assert!(!disk.is_there(&entry));
    disk.abort(transaction).expect("abort root-schema recovery");
}

#[test]
fn pruning_protects_active_entry_and_removes_older_key() {
    let mut disk = disk_with_input();
    let base = new_spec("prune", "recipe/v1")
        .with_input("input", b"/r/input")
        .with_output("output", b"/r/output");
    disk.build_output(&base.duplicate().with_arguments(arguments(&["old"])), b"old");
    let active = base
        .duplicate()
        .with_arguments(arguments(&["active"]))
        .with_prune_policy(ArtifactCachePrunePolicy::new().with_max_size_bytes(0));

    let outcome = disk.build_output(&active, b"active");
    let report = outcome
        .record()
        .maintenance()
        .and_then(ArtifactCacheMaintenance::prune_report)
        .expect("successful configured pruning");

    assert_eq!(report.entries_scanned(), 2);
    assert_eq!(report.entries_removed(), 1);
    assert_eq!(report.entries_retained(), 1);
    assert!(!disk.is_reused(&base.with_arguments(arguments(&["old"]))));
    assert!(disk.is_reused(&active));
    let strict = disk.prune(
        active.cache_root(),
        &namespace_directory(&active),
        ArtifactCachePrunePolicy::new().with_max_size_bytes(0),
        None,
    );
    assert_eq!(strict.entries_removed(), 1);
    assert!(!disk.is_reused(&active));
}

#[test]
fn pruning_removes_abandoned_staging_without_touching_active_transactions() {
    let mut disk = disk_with_input();
    let spec = new_spec("staging-prune", "recipe/v1")
        .with_input("input", b"/r/input")
        .with_output("output", b"/r/output");
    let transaction = disk.begin(&spec);
    let active_staging = transaction.staging_directory().to_owned();
    let namespace = namespace_directory(&spec);

    let active_report =
        disk.prune(spec.cache_root(), &namespace, ArtifactCachePrunePolicy::new(), None);
    assert_eq!(active_report.uncommitted_directories_removed(), 0);
    assert!(disk.is_there(&active_staging));
    disk.abort(transaction).expect("abort active transaction");

    let key = disk.resolve_key(&spec).key;
    let orphan =
        join(&staging_root(&namespace), format!("{}-terminated-0", key.to_hex()).as_bytes());
    disk.write(&join(&orphan, b"outputs/payload"), b"abandoned");

    let report = disk.prune(spec.cache_root(), &namespace, ArtifactCachePrunePolicy::new(), None);
    assert_eq!(report.uncommitted_directories_removed(), 1);
    assert!(report.uncommitted_bytes_removed() >= 9);
    assert!(!disk.is_there(&orphan));
}

#[test]
fn content_identity_is_independent_of_checkout_and_destination_paths() {
    let mut disk = Disk::new();
    for root in ["/first", "/second"] {
        disk.write(format!("{root}/source/input").as_bytes(), b"same input");
        disk.write(format!("{root}/tool").as_bytes(), b"same tool");
    }
    let spec = |root: &[u8]| {
        ArtifactCacheSpec::new(&join(root, b"cache"), "portable", "recipe/v1")
            .with_input("source", &join(root, b"source"))
            .with_tool("optimizer", &join(root, b"tool"))
            .with_arguments(arguments(&["--exact"]))
            .with_output("output", &join(root, b"different/public/output"))
    };

    let first_key = disk.resolve_key(&spec(b"/first"));
    let second_key = disk.resolve_key(&spec(b"/second"));

    assert_eq!(first_key.key, second_key.key);
    assert_eq!(first_key.input_digest, second_key.input_digest);
}

#[test]
fn import_helper_and_debug_output_do_not_expose_identity_values() {
    let mut disk = disk_with_input();
    disk.write(b"/r/fixed-build-location/output", b"external-output");
    let spec = new_spec("import", "recipe/v1")
        .with_input("input", b"/r/input")
        .with_environment(&variable("SECRET_TOKEN", "do-not-render"))
        .with_identity_bytes("private-ish", b"also-do-not-render")
        .with_output("output", b"/r/public/output");
    let summary = spec.summary();
    assert_eq!(summary.environment_names, [b"SECRET_TOKEN".to_vec()]);
    assert_eq!(summary.identity_labels, ["private-ish"]);
    let debug = format!("{summary:?}");
    assert!(!debug.contains("do-not-render"));
    assert!(!debug.contains(&format!("{:?}", b"do-not-render".to_vec())));
    assert!(!debug.contains(&format!("{:?}", b"also-do-not-render".to_vec())));
    let transaction = disk.begin(&spec);

    let external = disk.read(b"/r/fixed-build-location/output").to_vec();
    disk.write(&transaction.output_path("output").expect("declared output"), &external);
    let outcome = disk.commit(transaction).expect("commit imported output");

    assert_eq!(disk.read(outcome.record().artifacts()[0].path()), b"external-output");
}

#[test]
fn undeclared_staging_output_rejects_the_transaction() {
    let mut disk = disk_with_input();
    let spec = new_spec("extra", "recipe/v1")
        .with_input("input", b"/r/input")
        .with_output("output", b"/r/output");
    let transaction = disk.begin(&spec);
    disk.write(&transaction.output_path("output").unwrap(), b"declared");
    disk.write(&join(transaction.staging_directory(), b"outputs/extra"), b"undeclared");

    assert!(matches!(
        disk.commit(transaction),
        Err(ArtifactCacheError::InvalidOutputs { .. })
    ));
}

#[test]
fn empty_output_requires_explicit_regular_file_validation() {
    let mut disk = disk_with_input();
    let default_spec = new_spec("empty", "recipe/v1")
        .with_input("input", b"/r/input")
        .with_output("output", b"/r/output");
    let transaction = disk.begin(&default_spec);
    disk.write(&transaction.output_path("output").unwrap(), b"");
    assert!(matches!(
        disk.commit(transaction),
        Err(ArtifactCacheError::InvalidOutputs { .. })
    ));

    let regular_spec = new_spec("empty", "recipe/v1")
        .with_input("input", b"/r/input")
        .with_output_validation("output", b"/r/output", ArtifactOutputValidation::RegularFile);
    let transaction = disk.begin(&regular_spec);
    disk.write(&transaction.output_path("output").unwrap(), b"");
    disk.commit(transaction).expect("commit explicitly valid empty file");
}

fn expect_invalid_spec(result: Result<ArtifactCachePreparation, ArtifactCacheError>) {
    assert!(matches!(result, Err(ArtifactCacheError::InvalidSpec { .. })));
}

#[test]
fn invalid_specifications_are_rejected_before_acquisition() {
    let mut disk = disk_with_input();
    disk.write(b"/r/tool", b"tool");
    let (input, tool, output) = (b"/r/input", b"/r/tool", b"/r/output");
    let base = || new_spec("namespace", "recipe/v1");
    let specs = [
        base().with_input("input", input),
        base().with_input("bad label", input).with_output("output", output),
        base().with_input("input", input).with_input("input", input).with_output("output", output),
        base().with_tool("tool", tool).with_tool("tool", tool).with_output("output", output),
        base()
            .with_identity_bytes("identity", b"one")
            .with_identity_bytes("identity", b"two")
            .with_output("output", output),
        base().with_environment(&variable("", "value")).with_output("output", output),
        base().with_output("same", output).with_output("same", b"/r/other"),
        base().with_output("first", output).with_output("second", output),
        base().with_output(".", output),
        base().with_output("output", b""),
        new_spec("", "recipe/v1").with_output("output", output),
        new_spec("namespace", "").with_output("output", output),
        base().with_coordination_scope("").with_output("output", output),
        ArtifactCacheSpec::new(b"", "namespace", "recipe/v1").with_output("output", output),
    ];

    for spec in specs {
        expect_invalid_spec(disk.prepare(&spec));
    }
}

#[test]
fn filesystem_boundaries_reject_cache_inputs_and_destination_aliases() {
    let mut disk = disk_with_input();
    disk.write(b"/r/cache/input", b"cache input");
    disk.write(b"/r/cache/tool", b"cache tool");
    disk.write(b"/r/source/source", b"source");
    let input = b"/r/input";

    let invalid = [
        new_spec("cache-input", "recipe/v1")
            .with_input("input", b"/r/cache/input")
            .with_output("output", b"/r/public/cache-input"),
        new_spec("cache-tool", "recipe/v1")
            .with_tool("tool", b"/r/cache/tool")
            .with_output("output", b"/r/public/cache-tool"),
        new_spec("cache-output", "recipe/v1")
            .with_input("input", input)
            .with_output("output", b"/r/cache/public-output"),
        new_spec("input-output", "recipe/v1")
            .with_input("input", input)
            .with_output("output", input),
        new_spec("directory-output", "recipe/v1")
            .with_input("source", b"/r/source")
            .with_output("output", b"/r/source/generated"),
        new_spec("alias-output", "recipe/v1")
            .with_input("input", input)
            .with_output("first", b"/r/public/result")
            .with_output("second", b"/r/public/nested/../result"),
        new_spec("directory-destination", "recipe/v1")
            .with_input("input", input)
            .with_output("output", b"/r/source"),
    ];
    for spec in invalid {
        expect_invalid_spec(disk.prepare(&spec));
    }

    disk.directories.insert(b"/r/symlink-public".to_vec());
    disk.links.insert(b"/r/symlink-alias".to_vec(), b"/r/symlink-public".to_vec());
    let spec = new_spec("symlink-output", "recipe/v1")
        .with_input("input", input)
        .with_output("first", b"/r/symlink-public/result")
        .with_output("second", b"/r/symlink-alias/result");
    expect_invalid_spec(disk.prepare(&spec));

    disk.write(b"/r/ancestor-source/source", b"source");
    let allowed =
        ArtifactCacheSpec::new(b"/r/ancestor-source/nested-cache", "ancestor-input", "recipe/v1")
            .with_input("source", b"/r/ancestor-source")
            .with_output("output", b"/r/outside-source/output");
    let transaction = disk.begin(&allowed);
    disk.abort(transaction).expect("abort ancestor input transaction");
}

#[test]
fn pruning_needs_a_namespace_and_a_cache_root() {
    let message = |root: &[u8], namespace: &str| match validate_prune_request(root, namespace) {
        Err(ArtifactCacheError::InvalidSpec { message }) => message,
        other => panic!("unexpected {other:?}"),
    };
    assert_eq!(message(b"/r", ""), "namespace must not be empty");
    assert_eq!(message(b"/r", &"n".repeat(257)), "namespace must not exceed 256 bytes");
    assert_eq!(message(b"", "n"), "cache root must not be empty");
    assert!(validate_prune_request(b"/r", "n").is_ok());
}

#[test]
fn preparation_gives_up_after_repeated_input_changes() {
    let key = |byte: u8| ResolvedKey {
        key: InputDigest::from_bytes([byte; 32]),
        input_digest: InputDigest::from_bytes([byte; 32]),
    };
    let tick = Duration::from_millis(1);
    let mut preparation = Preparation::begin(tick, tick);
    for attempt in 0..3 {
        preparation.captured(key(attempt), tick);
        preparation.verified(key(attempt + 1), tick, tick);
    }
    assert!(matches!(preparation.stage, PreparationStage::GivenUp));
    match preparation.given_up() {
        ArtifactCacheError::InputsChangedDuringPreparation { before, after } => {
            assert_eq!(before, InputDigest::from_bytes([2; 32]));
            assert_eq!(after, InputDigest::from_bytes([3; 32]));
        }
        other => panic!("unexpected {other:?}"),
    }
}

fn resolved_cargo(byte: u8) -> ResolvedCargoBuildInputs {
    ResolvedCargoBuildInputs {
        fingerprint: InputDigest::from_bytes([byte; 32]),
        input_digest: InputDigest::from_bytes([byte; 32]),
        validation_digest: InputDigest::from_bytes([byte; 32]),
        inputs: Vec::new(),
        exclusions: Vec::new(),
        timings: WasmInputResolutionTimings::default(),
    }
}

fn with_cargo(label: &str, byte: u8, spec: ArtifactCacheSpec) -> ArtifactCacheSpec {
    let build = WasmBuildSpec::new(b"/w", b"/w/target", vec!["p".to_owned()], "debug");
    spec.with_cargo_build_inputs(label, &build, &resolved_cargo(byte))
}

#[test]
fn cargo_inputs_are_rehashed_in_the_order_of_their_labels() {
    let base = || new_spec("cargo", "recipe/v1").with_output("output", b"/r/output");
    let declared = InputDigest::from_bytes([9; 32]);
    let spec = with_cargo("a", 1, with_cargo("b", 2, base()));
    let key = |spec: &ArtifactCacheSpec| {
        let mut resolution = KeyResolution::begin(spec, declared);
        while let Some(index) = resolution.next() {
            let current = spec.cargo_build_inputs()[index].resolved.validation_digest();
            resolution = resolution.rehashed(current).expect("unchanged");
        }
        resolution.resolve_key(spec)
    };
    let resolved = key(&spec);
    assert_ne!(resolved.input_digest, declared);
    assert_eq!(resolved.key, key(&with_cargo("b", 2, with_cargo("a", 1, base()))).key);
    assert_eq!(resolved.key, resolve_content_key(&spec, resolved.input_digest));
    assert_ne!(resolved.key, key(&with_cargo("a", 3, with_cargo("b", 2, base()))).key);
    let resolution = KeyResolution::begin(&spec, declared);
    assert_eq!(resolution.next(), Some(1));
    match resolution.rehashed(InputDigest::from_bytes([7; 32])) {
        Err(ArtifactCacheError::CargoBuildInputsChanged { label, .. }) => assert_eq!(label, "a"),
        _ => panic!("change is detected"),
    }
    let failed = KeyResolution::begin(&spec, declared)
        .failed(WasmBuildError::InvalidSpec { message: "gone".to_owned() });
    assert!(matches!(failed, ArtifactCacheError::CargoBuildInputRevalidation { .. }));
    let current = vec![Ok(InputDigest::from_bytes([2; 32])), Ok(InputDigest::from_bytes([4; 32]))];
    assert!(matches!(
        revalidate_cargo_build_input_fingerprints(&spec, current),
        Err(ArtifactCacheError::CargoBuildInputsChanged { .. })
    ));
}

#[test]
fn locks_are_shared_only_where_they_have_to_be() {
    let first = new_spec("a", "recipe/v1").with_coordination_scope("shared-external-tree");
    let second = new_spec("b", "recipe/v1").with_coordination_scope("shared-external-tree");
    assert_eq!(coordination_lock_path(&first), coordination_lock_path(&second));
    assert_ne!(namespace_lock_path(&first), namespace_lock_path(&second));
    let key = InputDigest::from_bytes([1; 32]);
    let path = content_lock_path(&first, key);
    assert_eq!(
        file_name(&path),
        Some(format!("{}.lock", key.to_hex()).into_bytes())
    );
}

#[test]
fn staging_names_start_with_their_content_key() {
    let key = InputDigest::from_bytes([0xcd; 32]);
    let staging = staging_directory_for(b"/n", key, 12, 3);
    assert_eq!(staging, format!("/n/staging/{}-12-3", key.to_hex()).into_bytes());
    let name = file_name(&staging).expect("name");
    assert!(is_same_key_staging(&name, key));
    assert!(!is_same_key_staging(&name, InputDigest::from_bytes([0xce; 32])));
    assert_eq!(staging_content_key(&name), Some(key.to_hex().into_bytes()));
    let hex = key.to_hex();
    assert_eq!(staging_content_key(hex.as_bytes()), None);
    assert_eq!(staging_content_key(format!("{hex}-").as_bytes()), None);
    assert_eq!(staging_content_key(format!("{}-1", &hex[1..]).as_bytes()), None);
    let mut broken = format!("{hex}-").into_bytes();
    broken.push(0xff);
    assert_eq!(staging_content_key(&broken), None);
    assert_eq!(staged_output_path(b"/s", 7), b"/s/outputs/0007.artifact".to_vec());
    assert_eq!(staged_output_path(b"/s", 12345), b"/s/outputs/12345.artifact".to_vec());
}

#[test]
fn manifests_hold_one_line_for_each_output() {
    let spec = new_spec("m", "recipe/v1")
        .with_output("b", b"/r/b")
        .with_output_validation("a", b"/r/a", ArtifactOutputValidation::RegularFile);
    let key = InputDigest::from_bytes([1; 32]);
    let info = |byte: u8| ArtifactInfo {
        bytes: u64::from(byte),
        digest: InputDigest::from_bytes([byte; 32]),
    };
    let tokens: Vec<&str> =
        spec.outputs().iter().map(|output| output.validation.cache_token()).collect();
    assert_eq!(
        manifest_contents(key, &spec, &vec![info(2), info(3)]),
        format!(
            "ic-testkit-artifact-set-v1\nkey:{}\noutput:0:a:{}:2:{}\noutput:1:b:{}:3:{}\n",
            "01".repeat(32),
            tokens[0],
            "02".repeat(32),
            tokens[1],
            "03".repeat(32),
        )
    );
}

fn labeled(namespace: &str, output: &str) -> LabeledArtifactCacheSpec {
    LabeledArtifactCacheSpec::new(
        namespace,
        new_spec(namespace, "recipe/v1")
            .with_input("input", b"/r/input")
            .with_output("output", output.as_bytes()),
    )
}

fn run_batch<E>(
    disk: &mut Disk,
    specs: &Vec<LabeledArtifactCacheSpec>,
    mut populate: impl FnMut(usize, &ArtifactBuildTransaction, &mut Disk) -> Result<(), E>,
) -> ArtifactCacheBatchReport<E> {
    validate_batch_labels(specs).expect("labels");
    let tick = Duration::from_millis(1);
    let mut report = ArtifactCacheBatchReport::begin();
    for (index, entry) in specs.iter().enumerate() {
        let (mut transaction, prepared) = match disk.prepare(entry.spec()) {
            Err(error) => (None, Err(error)),
            Ok(ArtifactCachePreparation::Reused(record)) => (None, Ok(Some(record))),
            Ok(ArtifactCachePreparation::Build(transaction)) => (Some(transaction), Ok(None)),
        };
        let mut step = EntryStep::prepared(prepared, tick);
        let course = loop {
            step = match step {
                EntryStep::Settle(course) => break course,
                EntryStep::Populate { .. } => {
                    let open = transaction.as_ref().expect("open transaction");
                    let populated = populate(index, open, disk);
                    step.populated(populated, tick)
                }
                EntryStep::Commit { .. } => {
                    let committed = disk.commit(transaction.take().expect("open transaction"));
                    step.committed(committed, tick)
                }
                EntryStep::Abort { .. } => {
                    let aborted = disk.abort(transaction.take().expect("open transaction"));
                    step.aborted(aborted, tick)
                }
            };
        };
        report.record(entry.label(), settle_entry(course), Duration::from_millis(4));
    }
    report.finish(Duration::from_secs(1))
}

fn write_output(index: usize, transaction: &ArtifactBuildTransaction, disk: &mut Disk) {
    disk.write(
        &transaction.output_path("output").expect("batch output path"),
        format!("output-{index}").as_bytes(),
    );
}

#[test]
fn independent_transactions_build_then_reuse_in_order() {
    let mut disk = disk_with_input();
    let specs = vec![
        LabeledArtifactCacheSpec::new(
            "first",
            labeled("first", "/r/first.out").spec.with_coordination_scope("shared-builder"),
        ),
        LabeledArtifactCacheSpec::new(
            "second",
            labeled("second", "/r/second.out").spec.with_coordination_scope("shared-builder"),
        ),
    ];
    let mut built_indices = Vec::new();
    let built = run_batch(&mut disk, &specs, |index, transaction, disk| {
        built_indices.push(index);
        write_output(index, transaction, disk);
        Ok::<(), &'static str>(())
    });

    assert!(built.is_success());
    assert_eq!(built.entry_elapsed().len(), 2);
    assert_eq!(built_indices, [0, 1]);
    assert!(built
        .outcomes()
        .iter()
        .all(|(_index, outcome)| matches!(outcome, ArtifactCacheOutcome::Built(_))));
    let built_metrics = built.metrics();
    assert_eq!(built_metrics.entries(), 2);
    assert_eq!(built_metrics.succeeded(), 2);
    assert_eq!(built_metrics.failed(), 0);
    assert_eq!(built_metrics.built(), 2);
    assert_eq!(built_metrics.reused(), 0);
    assert!(built_metrics.successful_timings().caller_build().is_some());

    let reused = run_batch(&mut disk, &specs, |_index, _transaction, _disk| {
        Err::<(), _>("unexpected cache miss")
    });
    assert!(reused.is_success());
    assert!(reused.outcomes().iter().all(|(_index, outcome)| outcome.is_reused()));
    let reused_metrics = reused.metrics();
    assert_eq!(reused_metrics.built(), 0);
    assert_eq!(reused_metrics.reused(), 2);
    assert!(reused_metrics.successful_timings().caller_build().is_none());
    assert!(reused.render().starts_with("entries=2 succeeded=2 failed=0 built=0 reused=2 "));
}

#[test]
fn builder_failure_is_retained_and_later_transaction_runs() {
    let mut disk = disk_with_input();
    let specs = vec![
        labeled("first", "/r/first.out"),
        labeled("second", "/r/second.out"),
        labeled("third", "/r/third.out"),
    ];
    let report = run_batch(&mut disk, &specs, |index, transaction, disk| {
        if index == 1 {
            return Err("synthetic builder failure".to_owned());
        }
        write_output(index, transaction, disk);
        Ok(())
    });

    assert!(!report.is_success());
    assert_eq!(report.results().len(), 3);
    assert_eq!(report.entry_elapsed().len(), 3);
    assert_eq!(
        report.outcomes().iter().map(|(index, _outcome)| *index).collect::<Vec<_>>(),
        [0, 2]
    );
    let failures = report.failures();
    assert_eq!(failures.len(), 1);
    assert_eq!(failures[0].index(), 1);
    assert_eq!(failures[0].label(), "second");
    assert_eq!(failures[0].entry_elapsed(), report.entry_elapsed()[1]);
    assert!(matches!(
        failures[0].failure(),
        ArtifactCacheBatchFailure::Build { cleanup_error: None, .. }
    ));
    assert_eq!(failures[0].phase(), ArtifactCacheBatchFailurePhase::Callback);
    assert!(failures[0].timings().abort().is_some());
    assert!(failures[0].timings().commit().is_none());
    assert_eq!(
        failures[0].failure().render("synthetic builder failure"),
        "artifact builder failed: synthetic builder failure"
    );
    assert!(!disk.is_there(b"/r/second.out"));
    assert_eq!(disk.read(b"/r/third.out"), b"output-2");
    let metrics = report.metrics();
    assert_eq!(metrics.succeeded(), 2);
    assert_eq!(metrics.failed(), 1);
    assert_eq!(metrics.built(), 2);

    let transaction = disk.begin(specs[1].spec());
    disk.abort(transaction).expect("abort verification transaction");
}

#[test]
fn cache_failure_is_indexed_and_does_not_stop_later_entries() {
    let mut disk = disk_with_input();
    let specs = vec![
        labeled("first", "/r/first.out"),
        LabeledArtifactCacheSpec::new("invalid", labeled("", "/r/invalid.out").spec),
        labeled("third", "/r/third.out"),
    ];
    let report = run_batch(&mut disk, &specs, |index, transaction, disk| {
        write_output(index, transaction, disk);
        Ok::<(), &'static str>(())
    });

    assert_eq!(
        report
            .failures()
            .iter()
            .map(|entry| {
                assert!(matches!(entry.failure(), ArtifactCacheBatchFailure::Cache { .. }));
                assert_eq!(entry.phase(), ArtifactCacheBatchFailurePhase::Preparation);
                entry.index()
            })
            .collect::<Vec<_>>(),
        [1]
    );
    assert_eq!(disk.read(b"/r/third.out"), b"output-2");
}

#[test]
fn commit_failure_is_indexed_and_does_not_stop_later_entries() {
    let mut disk = disk_with_input();
    let specs = vec![
        labeled("first", "/r/first.out"),
        labeled("second", "/r/second.out"),
        labeled("third", "/r/third.out"),
    ];
    let report = run_batch(&mut disk, &specs, |index, transaction, disk| {
        if index != 1 {
            write_output(index, transaction, disk);
        }
        Ok::<(), &'static str>(())
    });

    assert_eq!(
        report
            .failures()
            .iter()
            .map(|entry| {
                assert!(matches!(entry.failure(), ArtifactCacheBatchFailure::Cache { .. }));
                assert_eq!(entry.phase(), ArtifactCacheBatchFailurePhase::Commit);
                entry.index()
            })
            .collect::<Vec<_>>(),
        [1]
    );
    assert!(!disk.is_there(b"/r/second.out"));
    assert_eq!(disk.read(b"/r/third.out"), b"output-2");
}

#[test]
fn batch_labels_are_nonempty_and_unique() {
    let relabel = |label: &str| LabeledArtifactCacheSpec::new(label, labeled("n", "/r/o").spec);
    assert!(matches!(
        validate_batch_labels(&vec![relabel("a"), relabel("")]),
        Err(ArtifactCacheBatchContractError::EmptyLabel { index: 1 })
    ));
    assert!(matches!(
        validate_batch_labels(&vec![relabel("a"), relabel("b"), relabel("a")]),
        Err(ArtifactCacheBatchContractError::DuplicateLabel {
            first_index: 0,
            duplicate_index: 2,
            ..
        })
    ));
    assert!(validate_batch_labels(&vec![relabel("a"), relabel("b")]).is_ok());
}

#[test]
fn failures_say_what_went_wrong() {
    let digest = InputDigest::from_bytes([0xab; 32]);
    let hex = digest.to_hex();
    let invalid = || ArtifactCacheError::InvalidSpec { message: "m".to_owned() };
    let cases = [
        (invalid(), "invalid artifact cache spec: m".to_owned()),
        (
            ArtifactCacheError::Io {
                operation: "read".to_owned(),
                path: b"/p\xff".to_vec(),
                source: "denied".to_owned(),
            },
            "failed to read at /p\u{fffd}: denied".to_owned(),
        ),
        (
            ArtifactCacheError::InputsChangedDuringPreparation { before: digest, after: digest },
            format!("artifact inputs repeatedly changed during cache preparation: {hex} -> {hex}"),
        ),
        (
            ArtifactCacheError::InputsChangedDuringBuild { before: digest, after: digest },
            format!("artifact inputs changed while the caller was building: {hex} -> {hex}"),
        ),
        (
            ArtifactCacheError::CargoBuildInputsChanged {
                label: "l".to_owned(),
                before: digest,
                after: digest,
            },
            format!("resolved Cargo build inputs `l` changed: {hex} -> {hex}"),
        ),
        (
            ArtifactCacheError::CargoBuildInputRevalidation {
                label: "l".to_owned(),
                source: WasmBuildError::InvalidMetadata { message: "x".to_owned() },
            },
            "failed to revalidate resolved Cargo build inputs `l`: invalid Cargo metadata: x"
                .to_owned(),
        ),
        (
            ArtifactCacheError::InvalidOutputs {
                outputs: vec![
                    InvalidOutput { name: "a".to_owned(), path: b"/a".to_vec() },
                    InvalidOutput { name: "b".to_owned(), path: b"/b".to_vec() },
                ],
            },
            "artifact transaction has missing or invalid outputs: a (/a), b (/b)".to_owned(),
        ),
        (
            ArtifactCacheError::UnknownOutput { name: "n".to_owned() },
            "artifact transaction has no output named `n`".to_owned(),
        ),
        (
            ArtifactCacheError::FailedTransactionCleanup {
                transaction_error: Box::new(invalid()),
                path: b"/s".to_vec(),
                source: "busy".to_owned(),
            },
            "artifact transaction failed (invalid artifact cache spec: m) and staging cleanup at /s also failed: busy"
                .to_owned(),
        ),
    ];
    for (error, text) in cases {
        assert_eq!(error.render(), text);
    }
    assert!(ArtifactCacheTimings::default().render().contains("total=0ns"));
}

#[test]
fn only_a_build_has_build_phases() {
    let tick = Duration::from_millis(1);
    let fresh = Preparation::begin(tick, tick).timings;
    assert_eq!(fresh.coordination_lock_wait(), tick);
    assert_eq!(fresh.caller_build(), None);
    assert_eq!(fresh.maintenance(), None);
    assert_eq!(fresh.output_validation(), Duration::zero());
    assert_eq!(fresh.publication(), Duration::zero());
    assert_eq!(fresh.total(), Duration::zero());

    let mut disk = Disk::new();
    disk.write(b"/r/source", b"source");
    let spec = new_spec("phases", "recipe/v1")
        .with_input("source", b"/r/source")
        .with_output("out.wasm", b"/r/public/out.wasm");
    let transaction = disk.begin(&spec);
    assert_eq!(transaction.timings.caller_build(), None);
    disk.write(&transaction.output_path("out.wasm").expect("declared"), b"wasm");
    let built = disk.commit(transaction).expect("commit");
    assert!(!built.is_reused());
    assert!(built.record().timings().caller_build().is_some());
    let second = disk.prepare(&spec).expect("prepare");
    let record = second.reused_record().expect("a hit");
    assert_eq!(record.timings().caller_build(), None);
    assert_eq!(record.timings().output_validation(), Duration::zero());
    assert_eq!(record.timings().publication(), Duration::zero());
}

#[test]
fn timings_are_added_in_any_order() {
    let tick = Duration::from_millis(1);
    let longest = Duration::from_nanos(u128::MAX);
    let built = ArtifactCacheTimings {
        caller_build: Some(tick),
        publication: longest,
        total: tick,
        ..ArtifactCacheTimings::default()
    };
    let reused = ArtifactCacheTimings {
        cache_lookup: tick,
        maintenance: Some(tick),
        publication: tick,
        total: tick,
        ..ArtifactCacheTimings::default()
    };
    let sum = built.saturating_add(reused);
    assert_eq!(sum, reused.saturating_add(built));
    assert_eq!(sum.caller_build(), Some(tick));
    assert_eq!(sum.maintenance(), Some(tick));
    assert_eq!(sum.cache_lookup(), tick);
    assert_eq!(sum.publication(), longest);
    assert_eq!(sum.total(), Duration::from_millis(2));
    let nothing = ArtifactCacheTimings::default();
    assert_eq!(built.saturating_add(nothing), built);
    assert_eq!(nothing.saturating_add(reused), reused);
    assert_eq!(nothing.saturating_add(nothing).caller_build(), None);
}

#[test]
fn a_changed_policy_is_performed_at_once() {
    let policy = ArtifactCachePrunePolicy::new().with_max_size_bytes(10);
    let spec = new_spec("policy", "recipe/v1").with_prune_policy_at_most_every(
        policy,
        Duration::from_secs(60),
    );
    let now = Timestamp::from_nanos_since_epoch(1_000);
    let marker = |recorded: ArtifactCachePrunePolicy| {
        Some(MaintenanceMarker { identity: recorded.maintenance_identity(), performed: now })
    };
    assert_eq!(maintenance_to_perform(&spec, &marker(policy), now), None);
    for recorded in [
        ArtifactCachePrunePolicy::new(),
        policy.with_max_size_bytes(1),
        policy.with_max_age(Duration::zero()),
    ] {
        assert_eq!(maintenance_to_perform(&spec, &marker(recorded), now), Some(policy));
    }
}

#[test]
fn entries_are_committed_only_after_they_were_populated() {
    let tick = Duration::from_millis(1);
    let step = EntryStep::<&str>::prepared(Ok(None), tick);
    let step = step.populated(Ok(()), Duration::from_millis(2));
    assert!(matches!(
        &step,
        EntryStep::Commit { preparation, callback }
            if *preparation == tick && *callback == Duration::from_millis(2)
    ));
    let failure = || ArtifactCacheError::UnknownOutput { name: "x".to_owned() };
    let settled = match step.committed(Err(failure()), tick) {
        EntryStep::Settle(course) => settle_entry(course),
        other => panic!("unexpected {other:?}"),
    };
    assert!(matches!(settled.result, Err(ArtifactCacheBatchFailure::Cache { .. })));
    assert_eq!(settled.failure_timings.expect("failed").commit(), Some(tick));

    let step = EntryStep::prepared(Ok(None), tick).populated(Err("broken"), tick);
    assert!(matches!(&step, EntryStep::Abort { source: "broken", .. }));
    let settled = match step.aborted(Ok(()), Duration::from_millis(3)) {
        EntryStep::Settle(course) => settle_entry(course),
        other => panic!("unexpected {other:?}"),
    };
    match settled.result {
        Err(ArtifactCacheBatchFailure::Build { source, cleanup_error }) => {
            assert_eq!(*source, "broken");
            assert!(cleanup_error.is_none());
        }
        other => panic!("unexpected {other:?}"),
    }
    assert_eq!(
        settled.failure_timings.expect("failed").abort(),
        Some(Duration::from_millis(3))
    );
    assert!(matches!(
        EntryStep::<&str>::prepared(Err(failure()), tick),
        EntryStep::Settle(EntryCourse::NotPrepared { .. })
    ));
}

#[test]
fn settings_and_outputs_are_kept_by_name() {
    let spec = new_spec("order", "recipe/v1")
        .with_output("b", b"/r/b")
        .with_output("c", b"/r/c")
        .with_output("a", b"/r/a")
        .with_unset_environment(&arguments(&["Z", "B"]))
        .with_environment(&vec![Variable { name: b"M".to_vec(), value: b"1".to_vec() }]);
    let names: Vec<&str> = spec.outputs().iter().map(|output| output.name.as_str()).collect();
    assert_eq!(names, ["a", "b", "c"]);
    let names: Vec<&[u8]> =
        spec.environment().iter().map(|setting| setting.name.as_slice()).collect();
    assert_eq!(names, [b"B", b"M", b"Z"]);
    let steps = materialization(&spec, b"/entry");
    assert_eq!(steps.len(), 3);
    assert_eq!(steps[1].from, staged_output_path(b"/entry", 1));
    assert_eq!(steps[1].to, b"/r/b");
}

#[test]
fn keys_tell_artifact_sets_and_inputs_apart() {
    let mut disk = Disk::new();
    for root in ["/r", "/elsewhere"] {
        disk.write(format!("{root}/in/a").as_bytes(), b"1");
        disk.write(format!("{root}/in/b").as_bytes(), b"2");
        disk.write(format!("{root}/tool").as_bytes(), b"tool");
    }
    let first = new_spec("keys", "recipe/v1")
        .with_input("in", b"/r/in")
        .with_input("b", b"/r/in/b")
        .with_tool("tool", b"/r/tool")
        .with_identity_bytes("x", b"1")
        .with_identity_bytes("y", b"2")
        .with_output("p", b"/r/p")
        .with_output("q", b"/r/q");
    let second = ArtifactCacheSpec::new(b"/other-cache", "keys", "recipe/v1")
        .with_coordination_scope("scope")
        .with_output("q", b"/elsewhere/q")
        .with_output("p", b"/elsewhere/p")
        .with_identity_bytes("y", b"2")
        .with_identity_bytes("x", b"1")
        .with_tool("tool", b"/elsewhere/tool")
        .with_input("b", b"/elsewhere/in/b")
        .with_input("in", b"/elsewhere/in")
        .with_prune_policy(ArtifactCachePrunePolicy::new());
    let key = disk.resolve_key(&first).key;
    assert_eq!(disk.resolve_key(&second).key, key);
    assert_ne!(disk.resolve_key(&second.duplicate().with_identity_bytes("z", b"")).key, key);
    assert_ne!(disk.resolve_key(&second.duplicate().with_output("s", b"/s")).key, key);
    disk.write(b"/elsewhere/in/c", b"");
    assert_ne!(disk.resolve_key(&second).key, key);
}

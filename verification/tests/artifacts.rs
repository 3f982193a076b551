use ic_testkit::artifacts::{
    icp_artifact_ready_for_build, icp_artifact_ready_with_snapshot, test_target_dir,
    wasm_artifacts_ready, wasm_path, workspace_root_for, InputDigest, WatchedInputSnapshot,
};
use ic_testkit::cache_fs::{
    attempt_is_recorded, attempted_maintenance, cache_directory_tag_is_valid,
    cache_maintenance_due, is_sha256_directory, last_used_time, prune_direct_child_directories,
    write_last_used, ArtifactCachePrunePolicy, ArtifactCachePruneReport, CacheEntry,
    DirectorySizeWalk, MaintenanceMarker, CACHE_DIRECTORY_TAG, CACHE_DIRECTORY_TAG_SIGNATURE,
};
use ic_testkit::digest::{digest_bytes, FileSizeChanged, InputHasher};
use ic_testkit::icp::{watched_input_stamp_path, FileStatus, StampRead};
use ic_testkit::paths::{
    file_name, is_absolute, join, parent, path_before, paths_equal, starts_with, strip_prefix,
    with_file_name,
};
use ic_testkit::resolution::{AncestorProbe, PathProbe};
use ic_testkit::text::{decimal_text, padded_text};
use ic_testkit::timing::{Duration, Timestamp};
use ic_testkit::tool::{
    resolve_executable, resolve_executable_in, split_search_path, CandidateState, SearchStep,
    ToolError, ToolErrorKind,
};
use ic_testkit::tree::{LabeledPath, PathDigestError, PathDigestWalk};
use ic_testkit::wasm::wasm_paths;
use ic_testkit::Fake;
use std::collections::BTreeMap;

/// Files of a tree in memory: absolute paths and what lies there.
struct Tree {
    files: BTreeMap<Vec<u8>, Vec<u8>>,
}

impl Tree {
    fn new() -> Tree {
        Tree { files: BTreeMap::new() }
    }

    fn write(&mut self, path: &[u8], contents: &[u8]) {
        self.files.insert(path.to_vec(), contents.to_vec());
    }

    fn names(&self, directory: &[u8]) -> Vec<Vec<u8>> {
        let mut names: Vec<Vec<u8>> = Vec::new();
        for path in self.files.keys() {
            if let Some(rest) = strip_prefix(path, directory) {
                let first = rest.split(|byte| *byte == b'/').next().unwrap_or_default().to_vec();
                if !names.contains(&first) {
                    names.insert(0, first);
                }
            }
        }
        names
    }

    fn walk(&self, mut walk: PathDigestWalk) -> Result<InputDigest, String> {
        loop {
            let path = match walk.next() {
                None => return Ok(walk.finish()),
                Some(pending) => pending.path.clone(),
            };
            let contents = self.files.get(&path);
            if contents.is_none() && self.names(&path).is_empty() {
                return Err("not found".to_owned());
            }
            match walk.enter(&path) {
                Ok(true) => {}
                Ok(false) => continue,
                Err(PathDigestError::ExcludedInput { path }) => {
                    return Err(format!("excluded {}", String::from_utf8_lossy(&path)));
                }
                Err(_) => unreachable!(),
            }
            match contents {
                Some(contents) => {
                    walk.begin_file(contents.len() as u64);
                    for chunk in contents.chunks(3) {
                        walk.file_chunk(chunk);
                    }
                    walk = walk.end_file().expect("length is kept");
                }
                None => {
                    if walk.open_directory(&path) {
                        walk.list_directory(self.names(&path));
                    }
                }
            }
        }
    }

    fn capture(&self, root: &[u8], watched: &[&str]) -> Result<WatchedInputSnapshot, String> {
        let watched = watched.iter().map(|path| (*path).to_owned()).collect();
        let mut walk = WatchedInputSnapshot::capture(root, &watched);
        loop {
            let path = match walk.next() {
                None => return Ok(WatchedInputSnapshot::captured(walk)),
                Some(pending) => pending.path.clone(),
            };
            assert!(walk.enter(&path).expect("nothing is excluded"));
            match self.files.get(&path) {
                Some(contents) => {
                    walk.begin_file(contents.len() as u64);
                    walk.file_chunk(contents);
                    walk = walk.end_file().expect("length is kept");
                }
                None => {
                    if self.names(&path).is_empty() {
                        return Err("not found".to_owned());
                    }
                    if walk.open_directory(&path) {
                        walk.list_directory(self.names(&path));
                    }
                }
            }
        }
    }

    fn status(&self, path: &[u8]) -> Result<FileStatus, String> {
        match self.files.get(path) {
            Some(contents) => Ok(FileStatus { is_file: true, length: contents.len() as u64 }),
            None => Err("No such file or directory".to_owned()),
        }
    }

    fn stamp(&self, artifact: &[u8]) -> StampRead {
        match self.files.get(&watched_input_stamp_path(artifact)) {
            Some(contents) => StampRead::Contents(String::from_utf8(contents.clone()).unwrap()),
            None => StampRead::Missing,
        }
    }

    fn ready(&self, root: &[u8], artifact: &str, watched: &[&str]) -> bool {
        let path = ic_testkit::icp::icp_artifact_path(root, artifact);
        icp_artifact_ready_for_build(
            self.capture(root, watched).ok(),
            self.status(&path),
            self.stamp(&path),
        )
    }
}

#[test]
fn icp_artifact_ready_requires_matching_content_stamp() {
    let mut tree = Tree::new();
    let root = b"/workspace";
    let artifact_relative_path = ".icp/local/canisters/counter/counter.wasm.gz";
    let artifact_path = join(root, artifact_relative_path.as_bytes());
    tree.write(b"/workspace/Cargo.toml", b"workspace");
    tree.write(&artifact_path, b"wasm");

    assert!(!tree.ready(root, artifact_relative_path, &["Cargo.toml"]));

    let snapshot = tree.capture(root, &["Cargo.toml"]).expect("capture exact watched inputs");
    let stamp = snapshot
        .mark_artifact_fresh(&artifact_path, tree.status(&artifact_path))
        .expect("stamp artifact inputs");
    assert_eq!(
        stamp.path,
        b"/workspace/.icp/local/canisters/counter/counter.wasm.gz.ic-testkit-input".to_vec()
    );
    assert_eq!(
        stamp.contents,
        format!("ic-testkit-watched-input-v1\nsha256:{}\n", snapshot.digest().to_hex())
    );
    tree.write(&stamp.path, stamp.contents.as_bytes());
    assert!(tree.ready(root, artifact_relative_path, &["Cargo.toml"]));

    tree.write(b"/workspace/Cargo.toml", b"changed");
    assert!(!tree.ready(root, artifact_relative_path, &["Cargo.toml"]));

    let changed = tree.capture(root, &["Cargo.toml"]).expect("capture changed watched inputs");
    assert_ne!(snapshot.digest(), changed.digest());
    assert!(!tree.ready(root, artifact_relative_path, &["missing"]));
}

#[test]
fn watched_input_digest_ignores_checkout_root_and_input_order() {
    let mut tree = Tree::new();
    for root in ["/first", "/elsewhere/second"] {
        tree.write(format!("{root}/Cargo.toml").as_bytes(), b"[workspace]");
        tree.write(format!("{root}/src/lib.rs").as_bytes(), b"pub fn value() -> u8 { 7 }");
    }

    let first = tree.capture(b"/first", &["Cargo.toml", "src"]).expect("capture first checkout");
    let second = tree
        .capture(b"/elsewhere/second", &["src", "Cargo.toml"])
        .expect("capture second checkout");
    assert_eq!(first.digest(), second.digest());
}

#[test]
fn artifacts_are_fresh_only_with_their_own_stamp() {
    let mut tree = Tree::new();
    tree.write(b"/w/a", b"1");
    let snapshot = tree.capture(b"/w", &["a"]).unwrap();
    let file = |length: u64| Ok(FileStatus { is_file: true, length });
    let stamp = snapshot.mark_artifact_fresh(b"/w/x", file(1)).unwrap();
    let contents = || StampRead::Contents(stamp.contents.clone());
    assert_eq!(snapshot.artifact_is_fresh(file(1), contents()), Ok(true));
    assert_eq!(snapshot.artifact_is_fresh(file(0), contents()), Ok(false));
    assert_eq!(
        snapshot.artifact_is_fresh(Ok(FileStatus { is_file: false, length: 1 }), contents()),
        Ok(false)
    );
    assert_eq!(snapshot.artifact_is_fresh(file(1), StampRead::Missing), Ok(false));
    let failed = StampRead::Failed { message: "denied".to_owned() };
    assert_eq!(snapshot.artifact_is_fresh(file(1), failed.clone()), Err("denied".to_owned()));
    assert!(!icp_artifact_ready_with_snapshot(snapshot, file(1), failed));
    assert_eq!(
        snapshot.artifact_is_fresh(Err("gone".to_owned()), contents()),
        Err("gone".to_owned())
    );
    assert_eq!(
        snapshot.mark_artifact_fresh(b"/w/x", file(0)).expect_err("empty"),
        "cannot stamp missing or empty artifact: /w/x"
    );
    assert_eq!(watched_input_stamp_path(b"/"), b"/artifact.ic-testkit-input".to_vec());
}

#[test]
fn streaming_digest_and_atomic_copy_preserve_exact_bytes() {
    let mut contents = vec![0_u8; 192 * 1024];
    for (index, byte) in contents.iter_mut().enumerate() {
        *byte = u8::try_from(index % 251).expect("test byte must fit");
    }
    let mut hasher = InputHasher::new("streaming-test-v1");
    hasher.begin_file_field("content", contents.len() as u64);
    for chunk in contents.chunks(16 * 1024) {
        hasher.file_chunk(chunk);
    }
    let (bytes, hasher) = hasher.end_file_field().expect("digest file");
    assert_eq!(bytes, u64::try_from(contents.len()).expect("fixture length must fit in u64"));
    assert_eq!(hasher.finish(), digest_bytes("streaming-test-v1", &contents));
}

#[test]
fn a_file_that_changes_its_size_is_not_hashed() {
    let mut hasher = InputHasher::new("d");
    hasher.begin_file_field("content", 5);
    hasher.file_chunk(b"four");
    match hasher.end_file_field() {
        Err(FileSizeChanged { expected, actual }) => assert_eq!((expected, actual), (5, 4)),
        Ok(_) => panic!("size changed"),
    }
}

#[test]
fn digests_are_sha256_of_framed_fields() {
    let digest = digest_bytes("d", b"x");
    let mut framed: Vec<u8> = Vec::new();
    for (label, value) in [("domain", "d"), ("content", "x")] {
        framed.extend_from_slice(&(label.len() as u64).to_le_bytes());
        framed.extend_from_slice(label.as_bytes());
        framed.extend_from_slice(&(value.len() as u64).to_le_bytes());
        framed.extend_from_slice(value.as_bytes());
    }
    use_sha256(&framed, digest);
    assert_eq!(digest.to_hex().len(), 64);
    assert_eq!(InputDigest::from_bytes([0xab; 32]).to_hex(), "ab".repeat(32));
    assert_ne!(digest_bytes("d", b"x"), digest_bytes("d", b"y"));
    assert_ne!(digest_bytes("d", b"x"), digest_bytes("dx", b""));
}

fn use_sha256(bytes: &[u8], digest: InputDigest) {
    let expected = <sha2::Sha256 as sha2::Digest>::digest(bytes);
    assert_eq!(expected.as_slice(), digest.as_bytes());
}

#[test]
fn different_trees_hash_differently() {
    let inputs = || vec![LabeledPath { label: b"root".to_vec(), path: b"/w".to_vec() }];
    let digest = |domain: &str, files: &[(&[u8], &[u8])]| {
        let mut tree = Tree::new();
        for (path, contents) in files {
            tree.write(path, contents);
        }
        tree.walk(PathDigestWalk::new(domain, inputs(), Vec::new())).expect("readable")
    };
    let files: [(&[u8], &[u8]); 2] = [(b"/w/a", b"1"), (b"/w/b/c", b"2")];
    let digests = [
        digest("d", &files),
        digest("e", &files),
        digest("d", &files[..1]),
        digest("d", &[(b"/w/a", b"1"), (b"/w/b/c", b"3")]),
        digest("d", &[(b"/w/a", b"1"), (b"/w/b/d", b"2")]),
        digest("d", &[(b"/w/a", b"1"), (b"/w/b", b"2")]),
        digest("d", &[(b"/w/a", b"2"), (b"/w/b/c", b"1")]),
    ];
    for (i, left) in digests.iter().enumerate() {
        for (j, right) in digests.iter().enumerate() {
            assert_eq!(left == right, i == j);
        }
    }
}

#[test]
fn excluded_roots_are_not_hashed() {
    let mut tree = Tree::new();
    tree.write(b"/w/src/a", b"1");
    tree.write(b"/w/target/out", b"2");
    let inputs = || vec![LabeledPath { label: b"root".to_vec(), path: b"/w".to_vec() }];
    let digest = tree
        .walk(PathDigestWalk::new("d", inputs(), vec![b"/w/target".to_vec()]))
        .unwrap();
    tree.write(b"/w/target/out", b"3");
    assert_eq!(
        tree.walk(PathDigestWalk::new("d", inputs(), vec![b"/w/target".to_vec()])),
        Ok(digest)
    );
    assert_ne!(tree.walk(PathDigestWalk::new("d", inputs(), Vec::new())), Ok(digest));
    assert_eq!(
        tree.walk(PathDigestWalk::new("d", inputs(), vec![b"/w".to_vec()])),
        Err("excluded /w".to_owned())
    );
    tree.write(b"/w/src/a", b"one");
    assert_ne!(
        tree.walk(PathDigestWalk::new("d", inputs(), vec![b"/w/target".to_vec()])),
        Ok(digest)
    );
}

#[test]
fn directories_that_were_listed_are_only_marked() {
    let inputs = vec![
        LabeledPath { label: b"b".to_vec(), path: b"/link".to_vec() },
        LabeledPath { label: b"a".to_vec(), path: b"/real".to_vec() },
    ];
    let mut walk = PathDigestWalk::new("d", inputs, Vec::new());
    assert_eq!(walk.next().unwrap().label, b"a".to_vec());
    assert!(walk.enter(b"/real").expect("nothing is excluded"));
    assert!(walk.open_directory(b"/real"));
    walk.list_directory(Vec::new());
    assert_eq!(walk.next().unwrap().label, b"b".to_vec());
    assert!(walk.enter(b"/real").expect("nothing is excluded"));
    assert!(!walk.open_directory(b"/real"));
    assert!(walk.next().is_none());
    let inputs = vec![LabeledPath { label: b"a".to_vec(), path: b"/pipe".to_vec() }];
    match PathDigestWalk::new("d", inputs, Vec::new()).reject() {
        PathDigestError::NotFileOrDirectory { path } => assert_eq!(path, b"/pipe".to_vec()),
        _ => panic!("rejected"),
    }
}

fn found(canonical: &[u8], is_file: bool, mode: u32) -> CandidateState {
    CandidateState::Found { canonical: canonical.to_vec(), is_file, mode }
}

fn failed(kind: ToolErrorKind) -> CandidateState {
    CandidateState::Failed(ToolError { kind, message: "cause".to_owned() })
}

fn resolved(step: SearchStep) -> Vec<u8> {
    match step {
        SearchStep::Resolved(path) => path,
        other => panic!("not resolved: {other:?}"),
    }
}

fn inspected(step: SearchStep) -> Vec<u8> {
    match step {
        SearchStep::Inspect(path) => path,
        other => panic!("no candidate: {other:?}"),
    }
}

fn rejected(step: SearchStep) -> (ToolErrorKind, String) {
    match step {
        SearchStep::Failed(error) => (error.kind, error.message),
        other => panic!("not failed: {other:?}"),
    }
}

#[test]
fn path_resolution_returns_one_canonical_executable_file() {
    let root = b"/root";
    let bin = b"/root/bin";
    let step = resolve_executable_in(b"optimizer", bin, root, &Vec::new());
    assert_eq!(inspected(step), b"/root/bin/optimizer".to_vec());
    let states = vec![found(b"/real/bin/optimizer", true, 0o755)];
    let step = resolve_executable_in(b"optimizer", bin, root, &states);
    assert_eq!(resolved(step), b"/real/bin/optimizer".to_vec());
}

#[test]
fn unusable_candidates_are_passed_over() {
    let path = b"/a::rel".to_vec();
    assert_eq!(
        split_search_path(&path),
        [b"/a".to_vec(), Vec::new(), b"rel".to_vec()]
    );
    assert_eq!(split_search_path(b""), [Vec::<u8>::new()]);
    let mut states = Vec::new();
    let mut candidates = Vec::new();
    for state in [failed(ToolErrorKind::NotFound), found(b"/x", false, 0o755), found(b"/x", true, 0o644)] {
        candidates.push(inspected(resolve_executable(b"tool", Some(&path), b"/cwd", &states)));
        states.push(state);
    }
    assert_eq!(
        candidates,
        [b"/a/tool".to_vec(), b"/cwd/tool".to_vec(), b"/cwd/rel/tool".to_vec()]
    );
    assert_eq!(
        rejected(resolve_executable(b"tool", Some(&path), b"/cwd", &states)),
        (ToolErrorKind::NotFound, "executable `tool` was not found in PATH".to_owned())
    );
    states[1] = failed(ToolErrorKind::Other);
    assert_eq!(
        rejected(resolve_executable(b"tool", Some(&path), b"/cwd", &states)),
        (ToolErrorKind::Other, "cause".to_owned())
    );
}

#[test]
fn paths_are_resolved_directly() {
    assert_eq!(
        rejected(resolve_executable(b"", None, b"/cwd", &Vec::new())),
        (ToolErrorKind::InvalidInput, "executable name must not be empty".to_owned())
    );
    assert_eq!(
        rejected(resolve_executable(b"tool", None, b"/cwd", &Vec::new())),
        (
            ToolErrorKind::NotFound,
            "cannot resolve executable `tool` because PATH is unset".to_owned()
        )
    );
    let path = b"/bin".to_vec();
    let direct = |program: &[u8], states: Vec<CandidateState>| {
        resolve_executable(program, Some(&path), b"/cwd", &states)
    };
    assert_eq!(inspected(direct(b"./tool", Vec::new())), b"/cwd/./tool".to_vec());
    assert_eq!(inspected(direct(b"/abs", Vec::new())), b"/abs".to_vec());
    assert_eq!(resolved(direct(b"/abs", vec![found(b"/real", true, 0o100)])), b"/real".to_vec());
    assert_eq!(
        rejected(direct(b"/abs", vec![found(b"/real", false, 0)])),
        (ToolErrorKind::NotFound, "executable path is not a regular file: /abs".to_owned())
    );
    assert_eq!(
        rejected(direct(b"/abs", vec![found(b"/real", true, 0o600)])),
        (ToolErrorKind::PermissionDenied, "file is not executable: /abs".to_owned())
    );
    assert_eq!(
        rejected(direct(b"a\xff/b", vec![found(b"/real", true, 0o600)])).1,
        "file is not executable: /cwd/a\u{fffd}/b"
    );
}

#[test]
fn wasm_artifacts_lie_below_the_profile_directory() {
    assert_eq!(
        wasm_path(b"/target", "counter", "release"),
        b"/target/wasm32-unknown-unknown/release/counter.wasm".to_vec()
    );
    let names = vec!["a".to_owned(), "b".to_owned()];
    assert_eq!(
        wasm_paths(b"t", &names, "debug"),
        [
            b"t/wasm32-unknown-unknown/debug/a.wasm".to_vec(),
            b"t/wasm32-unknown-unknown/debug/b.wasm".to_vec(),
        ]
    );
    assert!(wasm_artifacts_ready(&vec![true, true]));
    assert!(!wasm_artifacts_ready(&vec![true, false]));
    assert!(wasm_artifacts_ready(&Vec::new()));
}

#[test]
fn workspace_roots_are_found_above_crates() {
    assert_eq!(workspace_root_for("/w/crates/a"), b"/w".to_vec());
    assert_eq!(workspace_root_for("/w/other/a"), b"/w/other/a".to_vec());
    assert_eq!(workspace_root_for("crates/a"), b"".to_vec());
    assert_eq!(workspace_root_for("/crates"), b"/crates".to_vec());
    assert_eq!(test_target_dir(b"/w", "pic"), b"/w/target/pic".to_vec());
}

#[test]
fn fake_principal_is_deterministic_and_unique() {
    let p1 = Fake::principal(7);
    let p2 = Fake::principal(7);
    let q = Fake::principal(8);

    assert_eq!(p1, p2, "Fake::principal should be deterministic");
    assert_ne!(p1, q, "Fake::principal should differ for different seeds");

    let bytes = p1.as_slice();
    assert_eq!(bytes.len(), 29, "Principal must be 29 bytes");
    let mut expected = [0_u8; 29];
    expected[..4].copy_from_slice(&0x0102_03f4_u32.to_be_bytes());
    assert_eq!(Fake::principal(0x0102_03f4).as_slice(), expected);
}

#[test]
fn paths_follow_their_components() {
    assert!(is_absolute(b"/a"));
    assert!(!is_absolute(b"a"));
    assert_eq!(join(b"a", b"b"), b"a/b".to_vec());
    assert_eq!(join(b"a/", b"b"), b"a/b".to_vec());
    assert_eq!(join(b"a", b"/b"), b"/b".to_vec());
    assert!(starts_with(b"/a/b", b"/a/"));
    assert!(!starts_with(b"/ab", b"/a"));
    assert!(paths_equal(b"/a//b/./c/", b"/a/b/c"));
    assert!(!paths_equal(b"./a", b"a"));
    assert_eq!(parent(b"/a/b"), Some(b"/a".to_vec()));
    assert_eq!(parent(b"/"), None);
    assert_eq!(parent(b"a"), Some(Vec::new()));
    assert_eq!(file_name(b"/a/b/"), Some(b"b".to_vec()));
    assert_eq!(file_name(b"a/.."), None);
    assert_eq!(with_file_name(b"/a/b", b"c"), b"/a/c".to_vec());
    assert_eq!(strip_prefix(b"/a/b/c", b"/a"), Some(b"b/c".to_vec()));
    assert_eq!(strip_prefix(b"/a", b"/b"), None);
    assert!(path_before(b"a/b", b"a.b"));
    assert!(!path_before(b"a", b"a/"));
}

#[test]
fn missing_tails_are_kept_as_they_are_written() {
    let mut probe = AncestorProbe::new(b"/a/b/c");
    assert_eq!(probe.candidate(), b"/a/b/c");
    assert!(probe.missing());
    assert!(probe.missing());
    assert_eq!(probe.candidate(), b"/a");
    assert_eq!(probe.found(b"/real".to_vec()), b"/real/b/c".to_vec());
    let mut probe = PathProbe::new(b"/a/../b");
    while let Some(candidate) = probe.next() {
        if candidate == b"/a" {
            probe.found(b"/real/deep".to_vec());
        } else {
            probe.missing();
        }
    }
    assert_eq!(probe.finish(), b"/real/b".to_vec());
}

#[test]
fn numbers_are_written_in_decimal() {
    assert_eq!(decimal_text(0), "0");
    assert_eq!(decimal_text(u128::MAX), u128::MAX.to_string());
    assert_eq!(padded_text(7), "0007");
    assert_eq!(padded_text(12345), "12345");
}

#[test]
fn durations_are_written_like_debug_output() {
    for nanos in [0_u128, 1, 999, 1_000, 1_500, 999_999, 1_000_000, 2_000_001, 999_999_999, 1_000_000_000, 1_234_567_890, 61_000_000_000] {
        let expected = format!("{:?}", std::time::Duration::from_nanos(nanos as u64));
        assert_eq!(Duration::from_nanos(nanos).render(), expected);
    }
    assert_eq!(Duration::from_secs(2).as_nanos(), 2_000_000_000);
    assert_eq!(Duration::from_millis(2).saturating_sub(Duration::from_secs(1)).as_nanos(), 0);
}

fn time(seconds: u64) -> Timestamp {
    Timestamp::from_nanos_since_epoch(u128::from(seconds) * 1_000_000_000)
}

fn entry(name: char, bytes: u64, last_used: Timestamp) -> CacheEntry {
    let path = format!("/cache/{}", name.to_string().repeat(64));
    CacheEntry { path: path.into_bytes(), bytes, last_used }
}

fn path_of(name: char) -> Vec<u8> {
    format!("/cache/{}", name.to_string().repeat(64)).into_bytes()
}

#[test]
fn age_pruning_removes_only_stale_fingerprint_directories() {
    assert!(is_sha256_directory("a".repeat(64).as_bytes()));
    assert!(!is_sha256_directory(b"not-a-fingerprint"));
    let now = time(1_700_000_000);
    let plan = prune_direct_child_directories(
        vec![entry('a', 10, time(1)), entry('b', 10, now)],
        now,
        ArtifactCachePrunePolicy::new().with_max_age(Duration::from_secs(60)),
        None,
    );
    assert_eq!(plan.report.entries_scanned(), 2);
    assert_eq!(plan.report.entries_removed(), 1);
    assert_eq!(plan.report.entries_retained(), 1);
    assert_eq!(plan.removals, [path_of('a')]);
}

#[test]
fn size_pruning_removes_least_recently_used_entries_first() {
    let newest_bytes = 21;
    let plan = prune_direct_child_directories(
        vec![
            entry('b', newest_bytes, time(2)),
            entry('c', newest_bytes, time(3)),
            entry('a', newest_bytes, time(1)),
        ],
        time(1_700_000_000),
        ArtifactCachePrunePolicy::new().with_max_size_bytes(newest_bytes),
        None,
    );
    assert_eq!(plan.report.entries_scanned(), 3);
    assert_eq!(plan.report.entries_removed(), 2);
    assert_eq!(plan.report.entries_retained(), 1);
    assert!(plan.report.bytes_retained() <= newest_bytes);
    assert_eq!(plan.removals, [path_of('a'), path_of('b')]);
}

#[test]
fn in_build_pruning_protects_the_active_fingerprint() {
    let active = path_of('b');
    let plan = prune_direct_child_directories(
        vec![entry('a', 10, time(1)), entry('b', 10, time(2))],
        time(1_700_000_000),
        ArtifactCachePrunePolicy::new().with_max_age(Duration::zero()).with_max_size_bytes(0),
        Some(&active),
    );
    assert_eq!(plan.report.entries_scanned(), 2);
    assert_eq!(plan.report.entries_removed(), 1);
    assert_eq!(plan.removals, [path_of('a')]);
    assert!(plan.report.bytes_retained() > 0);
    let plan = prune_direct_child_directories(
        vec![entry('a', 10, time(1))],
        time(9),
        ArtifactCachePrunePolicy::new(),
        None,
    );
    assert_eq!(plan.report.entries_removed(), 0);
    assert_eq!(plan.report.bytes_before(), 10);
}

#[test]
fn cache_directory_tag_is_created_at_target_root() {
    assert!(!cache_directory_tag_is_valid("not a cache tag"));
    assert!(CACHE_DIRECTORY_TAG.starts_with(CACHE_DIRECTORY_TAG_SIGNATURE));
    assert!(cache_directory_tag_is_valid(CACHE_DIRECTORY_TAG));
}

#[test]
fn uses_are_recorded_and_read_back() {
    let used = Timestamp::from_nanos_since_epoch(1_234_567_890_123);
    let record = write_last_used(b"/entry", used).expect("after the epoch");
    assert_eq!(record.path, b"/entry/.ic-testkit-last-used".to_vec());
    assert_eq!(record.contents, "1234567890123");
    assert!(last_used_time(Some(&record.contents), time(5)).is_same(used));
    for unusable in ["", "x", "-1", " 1", "340282366920938463463374607431768211455"] {
        assert!(last_used_time(Some(unusable), time(5)).is_same(time(5)));
    }
    assert!(last_used_time(None, time(5)).is_same(time(5)));
    assert!(write_last_used(b"/entry", Timestamp::from_nanos_before_epoch(1)).is_none());
}

#[test]
fn maintenance_is_due_after_its_interval_or_a_new_policy() {
    let marker = Some(MaintenanceMarker { identity: "p".to_owned(), performed: time(100) });
    let minute = Some(Duration::from_secs(60));
    assert!(!cache_maintenance_due(&marker, minute, "p", time(159)));
    assert!(cache_maintenance_due(&marker, minute, "p", time(160)));
    assert!(cache_maintenance_due(&marker, minute, "p", time(99)));
    assert!(cache_maintenance_due(&marker, minute, "q", time(101)));
    assert!(cache_maintenance_due(&None, minute, "p", time(101)));
    assert!(cache_maintenance_due(&marker, None, "p", time(101)));
    assert!(cache_maintenance_due(&marker, Some(Duration::zero()), "p", time(100)));
}

#[test]
fn attempted_retention_is_recorded_whatever_it_came_to() {
    let report = ArtifactCachePruneReport { entries_removed: 3, ..Default::default() };
    assert!(attempt_is_recorded(Some(Duration::zero())));
    assert!(!attempt_is_recorded(None));
    let failed = |message: &str| Err(message.to_owned());
    let done = attempted_maintenance(Ok(report), Some(Ok(())));
    assert_eq!(done.prune_report(), Some(report));
    assert_eq!(attempted_maintenance(Ok(report), None).prune_report(), Some(report));
    let done = attempted_maintenance(failed("prune"), Some(Ok(())));
    assert_eq!(done.failure_message(), Some("prune"));
    let done = attempted_maintenance(failed("prune"), Some(Err("record".to_owned())));
    assert_eq!(done.failure_message(), Some("prune"));
    let done = attempted_maintenance(Ok(report), Some(Err("record".to_owned())));
    assert_eq!(done.failure_message(), Some("record"));
}

#[test]
fn different_limits_have_different_identities() {
    let policy = ArtifactCachePrunePolicy::new();
    let policies = [
        policy,
        policy.with_max_size_bytes(0),
        policy.with_max_size_bytes(10),
        policy.with_max_age(Duration::zero()),
        policy.with_max_age(Duration::from_nanos(1)),
        policy.with_max_age(Duration::from_nanos(1)).with_max_size_bytes(0),
        policy.with_max_age(Duration::from_nanos(10)),
    ];
    assert_eq!(policies[0].maintenance_identity(), "age=None;size=None");
    assert_eq!(policies[5].maintenance_identity(), "age=Some(1);size=Some(0)");
    for (i, recorded) in policies.iter().enumerate() {
        let identity = recorded.maintenance_identity();
        let marker = Some(MaintenanceMarker { identity, performed: time(100) });
        for (j, other) in policies.iter().enumerate() {
            let identity = other.maintenance_identity();
            let due =
                cache_maintenance_due(&marker, Some(Duration::from_secs(60)), &identity, time(101));
            assert_eq!(due, i != j);
        }
    }
}

#[test]
fn no_more_is_removed_than_was_there() {
    for limit in [0, 5, 25, 40] {
        let plan = prune_direct_child_directories(
            vec![
                entry('a', u64::MAX, time(1)),
                entry('b', 10, time(2)),
                entry('c', 20, time(99)),
                entry('d', 10, time(98)),
            ],
            time(100),
            ArtifactCachePrunePolicy::new()
                .with_max_age(Duration::from_secs(50))
                .with_max_size_bytes(limit),
            None,
        );
        assert!(plan.report.entries_removed() <= plan.report.entries_scanned());
        assert!(plan.report.bytes_removed() <= plan.report.bytes_before());
        assert_eq!(plan.report.entries_removed(), plan.removals.len());
        assert_eq!(plan.report.bytes_before(), u64::MAX);
        assert_eq!(plan.removals, [path_of('a'), path_of('b')]);
    }
}

#[test]
fn spans_of_time_add_up_to_the_longest_one() {
    let longest = Duration::from_nanos(u128::MAX);
    let second = Duration::from_secs(1);
    assert_eq!(longest.as_nanos(), 18_446_744_073_709_551_615_999_999_999);
    assert_eq!(longest.saturating_add(Duration::zero()), longest);
    assert_eq!(Duration::zero().saturating_add(longest), longest);
    assert_eq!(longest.saturating_add(second), longest);
    assert_eq!(longest.saturating_sub(Duration::zero()), longest);
    assert_eq!(second.saturating_sub(longest), Duration::zero());
}

#[test]
fn directory_sizes_add_up() {
    let mut walk = DirectorySizeWalk::new(b"/d");
    assert_eq!(walk.next(), Some(b"/d".to_vec()));
    walk.directory_entry(b"/d/a".to_vec());
    walk.directory_entry(b"/d/b".to_vec());
    assert_eq!(walk.next(), Some(b"/d/b".to_vec()));
    walk.file(7);
    assert_eq!(walk.next(), Some(b"/d/a".to_vec()));
    walk.file(u64::MAX - 7);
    assert_eq!(walk.next(), None);
    walk.file(3);
    assert_eq!(walk.finish(), u64::MAX);
}

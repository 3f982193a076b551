//! Freshness of artifacts against the exact content of watched inputs.

use vstd::prelude::*;
use vstd::string::*;
use vstd::utf8::encode_utf8;
use crate::digest::{
    collides, frames, hex, lemma_digest_length, lemma_hex_injective, sha256, InputDigest,
};
use crate::order::lemma_map_keeps_items;
use crate::paths::{file_name, file_name_of, join, joined, with_file_name, with_name};
use crate::places::{
    is_walk_over, lemma_same_digest_means_same_trees, lemma_same_trees_hash_alike, lies_at,
    places_alike, walk_fits, Place,
};
use crate::text::{bytes_of, lossy, lossy_text, text_equal, texts};
use crate::tree::{
    byte_strings, is_whole_walk, labeled_views, labels_of, met_of, tree_digest, walk_start, walked,
    LabeledPath, LabeledView, PathDigestWalk, Visit, WalkState,
};

verus! {

/// First line of every stamp.
pub const WATCHED_INPUT_STAMP_VERSION: &'static str = "ic-testkit-watched-input-v1";

/// Domain of watched-input digests.
pub const WATCHED_INPUTS_DOMAIN: &'static str = "watched-inputs-v1";

/// What is known about a file without reading it.
#[derive(Clone, Copy, Debug)]
pub struct FileStatus {
    /// Whether it is a regular file.
    pub is_file: bool,
    /// Length in bytes.
    pub length: u64,
}

/// What came of reading a stamp.
#[derive(Clone, Debug)]
pub enum StampRead {
    /// The stamp holds this text.
    Contents(String),
    /// There is no stamp.
    Missing,
    /// The stamp could not be read.
    Failed {
        /// Rendered cause.
        message: String,
    },
}

/// Each watched path under its own name as label.
pub open spec fn watched_inputs(workspace_root: Seq<u8>, relative: Seq<Seq<char>>) -> Seq<LabeledView> {
    relative.map_values(
        |path: Seq<char>|
            LabeledView {
                label: encode_utf8(path),
                path: joined(workspace_root, encode_utf8(path)),
            },
    )
}

/// The state in which the walk over watched paths starts.
pub open spec fn watched_start(workspace_root: Seq<u8>, relative: Seq<Seq<char>>) -> WalkState {
    walk_start(WATCHED_INPUTS_DOMAIN@, watched_inputs(workspace_root, relative))
}

/// What a stamp for a digest holds.
pub open spec fn stamp_text(digest: Seq<u8>) -> Seq<char> {
    WATCHED_INPUT_STAMP_VERSION@ + "\nsha256:"@ + hex(digest) + "\n"@
}

/// Where the stamp of an artifact lies: beside it, under a longer name.
pub open spec fn stamp_path(artifact_path: Seq<u8>) -> Seq<u8> {
    let name = match file_name_of(artifact_path) {
        Some(name) => name,
        None => encode_utf8("artifact"@),
    };
    with_name(artifact_path, name + encode_utf8(".ic-testkit-input"@))
}

/// Whether an artifact is a nonempty regular file.
pub open spec fn is_nonempty_file(status: FileStatus) -> bool {
    status.is_file && status.length > 0
}

/// Whether a nonempty artifact carries the stamp of a digest.
pub open spec fn carries_stamp(
    status: Result<FileStatus, String>,
    stamp: StampRead,
    digest: Seq<u8>,
) -> bool {
    match (status, stamp) {
        (Ok(found), StampRead::Contents(text)) => is_nonempty_file(found) && text@ == stamp_text(
            digest,
        ),
        _ => false,
    }
}

/// Exact content digest captured across a set of watched input trees.
#[derive(Clone, Copy, Debug)]
pub struct WatchedInputSnapshot {
    digest: InputDigest,
}

impl View for WatchedInputSnapshot {
    type V = Seq<u8>;

    closed spec fn view(&self) -> Seq<u8> {
        self.digest@
    }
}

impl WatchedInputSnapshot {
    /// Start the walk that hashes the paths and contents of all watched inputs.
    ///
    /// File timestamps are not taken in, so the same content produces the same
    /// digest after a Git checkout or CI cache restore.
    pub fn capture(workspace_root: &[u8], watched_relative_paths: &Vec<String>) -> (walk: PathDigestWalk)
        ensures
            walk.wf(),
            walk.is_between(),
            walk.state() == watched_start(workspace_root@, texts(watched_relative_paths@)),
            walk.start() == walk.state(),
            walk.visits() == Seq::<Visit>::empty(),
            walk.visited() == Seq::<Seq<u8>>::empty(),
            walk.excluded() == Seq::<Seq<u8>>::empty(),
    {
        let ghost all = watched_inputs(workspace_root@, texts(watched_relative_paths@));
        let mut paths: Vec<LabeledPath> = Vec::new();
        let mut at: usize = 0;
        assert(labeled_views(paths@) =~= all.take(0));
        while at < watched_relative_paths.len()
            invariant
                at <= watched_relative_paths@.len(),
                all == watched_inputs(workspace_root@, texts(watched_relative_paths@)),
                labeled_views(paths@) == all.take(at as int),
            decreases watched_relative_paths.len() - at,
        {
            let relative = watched_relative_paths[at].as_str();
            let ghost before = paths@;
            paths.push(
                LabeledPath {
                    label: bytes_of(relative),
                    path: join(workspace_root, relative.as_bytes()),
                },
            );
            proof {
                assert(texts(watched_relative_paths@)[at as int] == relative@);
                assert(paths@.last()@ == all[at as int]);
                assert(labeled_views(paths@) =~= labeled_views(before).push(all[at as int]));
                assert(all.take(at + 1) =~= all.take(at as int).push(all[at as int]));
            }
            at = at + 1;
        }
        assert(all.take(at as int) =~= all);
        let excluded: Vec<Vec<u8>> = Vec::new();
        assert(byte_strings(excluded@) =~= Seq::<Seq<u8>>::empty());
        PathDigestWalk::new(WATCHED_INPUTS_DOMAIN, paths, excluded)
    }

    /// The snapshot of a walk that has nothing left to hash.
    pub fn captured(walk: PathDigestWalk) -> (snapshot: Self)
        requires
            walk.wf(),
            walk.is_between(),
            walk.pending().len() == 0,
        ensures
            snapshot@ == sha256(frames(walk.fields())),
            snapshot@ == tree_digest(walk.start(), walk.visits()),
            is_whole_walk(walk.start(), walk.visits(), walk.excluded()),
    {
        WatchedInputSnapshot { digest: walk.finish() }
    }

    /// Return the exact content digest of the watched inputs.
    pub fn digest(self) -> (digest: InputDigest)
        ensures
            digest@ == self@,
    {
        self.digest
    }

    fn stamp_contents(self) -> (text: String)
        ensures
            text@ == stamp_text(self@),
    {
        let mut text = WATCHED_INPUT_STAMP_VERSION.to_owned();
        text.append("\nsha256:");
        text.append(self.digest.to_hex().as_str());
        text.append("\n");
        text
    }

    /// Check whether one artifact carries a matching exact-input stamp.
    ///
    /// An existing artifact without a stamp is not considered fresh.
    pub fn artifact_is_fresh(
        self,
        status: Result<FileStatus, String>,
        stamp: StampRead,
    ) -> (result: Result<bool, String>)
        ensures
            match status {
                Err(message) => result matches Err(cause) && cause@ == message@,
                Ok(found) => if !is_nonempty_file(found) {
                    result == Ok::<bool, String>(false)
                } else {
                    match stamp {
                        StampRead::Contents(text) => result == Ok::<bool, String>(
                            text@ == stamp_text(self@),
                        ),
                        StampRead::Missing => result == Ok::<bool, String>(false),
                        StampRead::Failed { message } => result matches Err(cause) && cause@
                            == message@,
                    }
                },
            },
    {
        let found = status?;
        if !found.is_file || found.length == 0 {
            return Ok(false);
        }
        match stamp {
            StampRead::Contents(text) => {
                let expected = self.stamp_contents();
                Ok(text_equal(text.as_str(), expected.as_str()))
            },
            StampRead::Missing => Ok(false),
            StampRead::Failed { message } => Err(message),
        }
    }

    /// The stamp to write atomically for an artifact that was built from this input snapshot.
    pub fn mark_artifact_fresh(
        self,
        artifact_path: &[u8],
        status: Result<FileStatus, String>,
    ) -> (result: Result<Stamp, String>)
        ensures
            match status {
                Err(message) => result matches Err(cause) && cause@ == message@,
                Ok(found) => if is_nonempty_file(found) {
                    result matches Ok(stamp) && stamp.path@ == stamp_path(artifact_path@)
                        && stamp.contents@ == stamp_text(self@)
                } else {
                    result matches Err(cause) && cause@
                        == "cannot stamp missing or empty artifact: "@ + lossy_text(artifact_path@)
                },
            },
    {
        let found = status?;
        if !found.is_file || found.length == 0 {
            let mut message = "cannot stamp missing or empty artifact: ".to_owned();
            message.append(lossy(artifact_path).as_str());
            return Err(message);
        }
        Ok(Stamp { path: watched_input_stamp_path(artifact_path), contents: self.stamp_contents() })
    }
}

/// A stamp to be written.
#[derive(Clone, Debug)]
pub struct Stamp {
    /// Where the stamp lies.
    pub path: Vec<u8>,
    /// What the stamp holds.
    pub contents: String,
}

/// Where the stamp of an artifact lies.
pub fn watched_input_stamp_path(artifact_path: &[u8]) -> (path: Vec<u8>)
    ensures
        path@ == stamp_path(artifact_path@),
{
    let mut name = match file_name(artifact_path) {
        Some(name) => name,
        None => bytes_of("artifact"),
    };
    let mut suffix = bytes_of(".ic-testkit-input");
    name.append(&mut suffix);
    with_file_name(artifact_path, name.as_slice())
}

/// Where an artifact lies below the workspace root.
pub fn icp_artifact_path(workspace_root: &[u8], artifact_relative_path: &str) -> (path: Vec<u8>)
    ensures
        path@ == joined(workspace_root@, encode_utf8(artifact_relative_path@)),
{
    join(workspace_root, artifact_relative_path.as_bytes())
}

/// Check whether an ICP artifact exists, is nonempty, and is fresh against watched inputs.
///
/// Nothing is ready against inputs that could not be captured.
pub fn icp_artifact_ready_for_build(
    watched_inputs: Option<WatchedInputSnapshot>,
    status: Result<FileStatus, String>,
    stamp: StampRead,
) -> (ready: bool)
    ensures
        ready == match watched_inputs {
            Some(snapshot) => carries_stamp(status, stamp, snapshot@),
            None => false,
        },
{
    match watched_inputs {
        Some(snapshot) => icp_artifact_ready_with_snapshot(snapshot, status, stamp),
        None => false,
    }
}

/// Check one ICP artifact against one already-captured watched-input snapshot.
pub fn icp_artifact_ready_with_snapshot(
    watched_inputs: WatchedInputSnapshot,
    status: Result<FileStatus, String>,
    stamp: StampRead,
) -> (ready: bool)
    ensures
        ready == carries_stamp(status, stamp, watched_inputs@),
{
    match watched_inputs.artifact_is_fresh(status, stamp) {
        Ok(fresh) => fresh,
        Err(_) => false,
    }
}

/// Snapshots tell watched trees apart by what lies in them alone.
///
/// Trees in which the same lies under the same relative paths have the same
/// digest, wherever they are checked out and in whichever order the paths are
/// watched. Trees with the same digest hold the same files and directories
/// under the same relative paths, unless SHA-256 collides.
pub proof fn lemma_snapshot_tells_contents(
    root: Seq<u8>,
    relative: Seq<Seq<char>>,
    visits: Seq<Visit>,
    places: spec_fn(Seq<u8>) -> Place,
    other_root: Seq<u8>,
    other_relative: Seq<Seq<char>>,
    other_visits: Seq<Visit>,
    other_places: spec_fn(Seq<u8>) -> Place,
)
    requires
        relative.to_multiset() == other_relative.to_multiset(),
        is_whole_walk(watched_start(root, relative), visits, seq![]),
        is_whole_walk(watched_start(other_root, other_relative), other_visits, seq![]),
        is_walk_over(places, watched_start(root, relative), visits),
        is_walk_over(other_places, watched_start(other_root, other_relative), other_visits),
    ensures
        places_alike(places, seq![], other_places, seq![]) ==> tree_digest(
            watched_start(root, relative),
            visits,
        ) == tree_digest(watched_start(other_root, other_relative), other_visits),
        ({
            let (left, right) = (
                watched_start(root, relative),
                watched_start(other_root, other_relative),
            );
            tree_digest(left, visits) == tree_digest(right, other_visits) && walk_fits(left, visits)
                && walk_fits(right, other_visits) ==> collides(
                frames(walked(left, met_of(visits)).fields),
                frames(walked(right, met_of(other_visits)).fields),
            ) || (lies_at(left, visits, other_places) && lies_at(right, other_visits, places))
        }),
{
    let (inputs, others) = (
        watched_inputs(root, relative),
        watched_inputs(other_root, other_relative),
    );
    let (left, right) = (watched_start(root, relative), watched_start(other_root, other_relative));
    let label = |path: Seq<char>| encode_utf8(path);
    lemma_map_keeps_items(relative, other_relative, label);
    assert(labels_of(inputs) =~= relative.map_values(label));
    assert(labels_of(others) =~= other_relative.map_values(label));
    if places_alike(places, seq![], other_places, seq![]) {
        lemma_same_trees_hash_alike(
            WATCHED_INPUTS_DOMAIN@,
            inputs,
            visits,
            places,
            seq![],
            others,
            other_visits,
            other_places,
            seq![],
        );
    }
    if tree_digest(left, visits) == tree_digest(right, other_visits) && walk_fits(left, visits)
        && walk_fits(right, other_visits) && !collides(
        frames(walked(left, met_of(visits)).fields),
        frames(walked(right, met_of(other_visits)).fields),
    ) {
        lemma_same_digest_means_same_trees(
            WATCHED_INPUTS_DOMAIN@,
            inputs,
            visits,
            places,
            others,
            other_visits,
            other_places,
        );
    }
}

/// A stamp matches the snapshot that it was written for and no snapshot of another digest.
pub proof fn lemma_stamp_identifies_snapshot(left: WatchedInputSnapshot, right: WatchedInputSnapshot)
    ensures
        (stamp_text(left@) == stamp_text(right@)) == (left@ == right@),
{
    lemma_digest_length(left.digest);
    lemma_digest_length(right.digest);
    let (a, b) = (stamp_text(left@), stamp_text(right@));
    if a == b {
        let head = WATCHED_INPUT_STAMP_VERSION@ + "\nsha256:"@;
        assert(a =~= head + (hex(left@) + "\n"@));
        assert(b =~= head + (hex(right@) + "\n"@));
        assert(hex(left@) + "\n"@ =~= a.skip(head.len() as int));
        assert(hex(right@) + "\n"@ =~= b.skip(head.len() as int));
        let (x, y) = (hex(left@) + "\n"@, hex(right@) + "\n"@);
        reveal_strlit("\n");
        assert(hex(left@) =~= x.drop_last());
        assert(hex(right@) =~= y.drop_last());
        lemma_hex_injective(left@, right@);
    }
}

/// An artifact is ready exactly when it is a nonempty regular file whose stamp is the one of the
/// current inputs.
pub proof fn lemma_ready_artifacts(
    status: Result<FileStatus, String>,
    stamp: StampRead,
    digest: Seq<u8>,
)
    ensures
        carries_stamp(status, stamp, digest) <==> {
            &&& status matches Ok(found) && found.is_file && found.length > 0
            &&& stamp matches StampRead::Contents(text) && text@ == stamp_text(digest)
        },
{
}

/// Every watched path is watched: under its own name, below the workspace, in order.
pub proof fn lemma_every_path_is_watched(workspace_root: Seq<u8>, relative: Seq<Seq<char>>)
    ensures
        watched_inputs(workspace_root, relative).len() == relative.len(),
        forall|i: int| #![trigger relative[i]]
            0 <= i < relative.len() ==> watched_inputs(workspace_root, relative)[i].label
                == encode_utf8(relative[i]) && watched_inputs(workspace_root, relative)[i].path
                == joined(workspace_root, encode_utf8(relative[i])),
{
}

} // verus!

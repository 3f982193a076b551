//! The exact inputs of a build: sources, configuration, exclusions and their digests.

use vstd::prelude::*;
use vstd::string::*;
use vstd::utf8::encode_utf8;
use super::error::WasmBuildError;
use super::identity::{
    finish_build_fingerprint, fingerprint_fields, shared_incremental_target, shared_target_path,
};
use super::metadata::{
    find_package, in_text_order, is_reachable, metadata_dependencies, metadata_nodes_of,
    metadata_packages, metadata_packages_of, package_closure, package_index, packages_view,
    selected_ids, selected_package_ids, texts_among, MetadataPackage, PackageView,
};
use super::progress::{is_zero_resolution, WasmInputResolutionTimings};
use super::spec::{WasmBuildSpec, WasmBuildSpecView, CACHE_FORMAT_VERSION};
use crate::digest::{collides, digest_of, field, frames, InputDigest, InputHasher};
use crate::document::{member_items, member_text, Document, DocumentView};
use crate::paths::{
    is_absolute, is_absolute_path, is_within, join, joined, parent, parent_path, paths_equal,
    same_path, starts_with, strip_prefix, stripped,
};
use crate::places::{
    is_walk_over, lemma_same_digest_means_same_trees, lemma_same_trees_hash_alike, lies_at,
    places_alike, walk_fits, Place,
};
use crate::settings::{copy_bytes, copy_strings, settings_view, Setting};
use crate::text::{bytes_of, lossy, lossy_text, texts};
use crate::tree::{
    byte_strings, is_whole_walk, labeled_views, met_of, tree_digest, walk_start, walked,
    LabeledPath, LabeledView, PathDigestWalk, Visit, WalkState,
};

verus! {

/// Domain under which the sources and configuration of a build are hashed.
pub const SOURCE_DOMAIN: &'static str = "wasm-source-inputs-v1";

/// The state in which the walk over the inputs of a build starts.
pub open spec fn source_start(inputs: Seq<LabeledView>) -> WalkState {
    walk_start(SOURCE_DOMAIN@, inputs)
}

/// One exact local Cargo source or configuration input under a stable logical label.
#[derive(Clone, Debug, PartialEq, Eq)]
pub struct CargoBuildInput {
    /// Stable checkout-independent label used while hashing this input.
    pub label: Vec<u8>,
    /// Resolved file or directory read by the Cargo build.
    pub path: Vec<u8>,
}

impl View for CargoBuildInput {
    type V = LabeledView;

    open spec fn view(&self) -> LabeledView {
        LabeledView { label: self.label@, path: self.path@ }
    }
}

/// Views of a list of build inputs.
pub open spec fn build_inputs_view(inputs: Seq<CargoBuildInput>) -> Seq<LabeledView> {
    inputs.map_values(|input: CargoBuildInput| input@)
}

impl CargoBuildInput {
    /// Stable checkout-independent label used while hashing this input.
    pub fn label(&self) -> (label: &[u8])
        ensures
            label@ == self.label@,
    {
        self.label.as_slice()
    }

    /// Resolved file or directory read by the Cargo build.
    pub fn path(&self) -> (path: &[u8])
        ensures
            path@ == self.path@,
    {
        self.path.as_slice()
    }
}

/// Resolved exact inputs and identity for one [`WasmBuildSpec`].
#[derive(Debug)]
pub struct ResolvedCargoBuildInputs {
    /// Exact build fingerprint including Cargo inputs, tools, arguments, and environment.
    pub fingerprint: InputDigest,
    /// Semantic digest of selected Cargo sources and workspace configuration.
    pub input_digest: InputDigest,
    /// Conservative digest of every raw source and configuration input.
    pub validation_digest: InputDigest,
    /// Stable logical labels and conservative resolved validation paths.
    pub inputs: Vec<CargoBuildInput>,
    /// Generated-state roots excluded while recursively hashing local inputs.
    pub exclusions: Vec<Vec<u8>>,
    /// Timings for tool identity, metadata, discovery, and content hashing.
    pub timings: WasmInputResolutionTimings,
}

/// What a resolution says about the inputs.
pub struct ResolvedView {
    /// Exact build fingerprint.
    pub fingerprint: Seq<u8>,
    /// Semantic digest of the inputs.
    pub input_digest: Seq<u8>,
    /// Conservative digest of the inputs.
    pub validation_digest: Seq<u8>,
    /// Labels and paths of the inputs.
    pub inputs: Seq<LabeledView>,
    /// Generated-state roots left out of the inputs.
    pub exclusions: Seq<Seq<u8>>,
}

impl View for ResolvedCargoBuildInputs {
    type V = ResolvedView;

    open spec fn view(&self) -> ResolvedView {
        ResolvedView {
            fingerprint: self.fingerprint@,
            input_digest: self.input_digest@,
            validation_digest: self.validation_digest@,
            inputs: build_inputs_view(self.inputs@),
            exclusions: byte_strings(self.exclusions@),
        }
    }
}

/// Whether two resolutions say the same about the inputs, whatever time they took.
pub open spec fn same_resolution(
    left: ResolvedCargoBuildInputs,
    right: ResolvedCargoBuildInputs,
) -> bool {
    &&& left.fingerprint == right.fingerprint
    &&& left.input_digest == right.input_digest
    &&& left.validation_digest == right.validation_digest
    &&& build_inputs_view(left.inputs@) == build_inputs_view(right.inputs@)
    &&& byte_strings(left.exclusions@) == byte_strings(right.exclusions@)
}

fn copy_inputs(inputs: &Vec<CargoBuildInput>) -> (copy: Vec<CargoBuildInput>)
    ensures
        build_inputs_view(copy@) == build_inputs_view(inputs@),
{
    let ghost all = build_inputs_view(inputs@);
    let mut copy: Vec<CargoBuildInput> = Vec::new();
    let mut at: usize = 0;
    while at < inputs.len()
        invariant
            at <= inputs@.len(),
            all == build_inputs_view(inputs@),
            build_inputs_view(copy@) == all.take(at as int),
        decreases inputs.len() - at,
    {
        let ghost before = build_inputs_view(copy@);
        copy.push(
            CargoBuildInput {
                label: copy_bytes(inputs[at].label.as_slice()),
                path: copy_bytes(inputs[at].path.as_slice()),
            },
        );
        proof {
            assert(build_inputs_view(copy@) =~= before.push(all[at as int]));
            assert(all.take(at + 1) =~= all.take(at as int).push(all[at as int]));
        }
        at = at + 1;
    }
    assert(all.take(at as int) =~= all);
    copy
}

impl ResolvedCargoBuildInputs {
    /// Exact build fingerprint including Cargo inputs, tools, arguments, and environment.
    pub fn fingerprint(&self) -> (digest: InputDigest)
        ensures
            digest == self.fingerprint,
    {
        self.fingerprint
    }

    /// Semantic digest of selected Cargo sources and workspace configuration.
    pub fn input_digest(&self) -> (digest: InputDigest)
        ensures
            digest == self.input_digest,
    {
        self.input_digest
    }

    /// Conservative digest of every raw source and configuration input.
    pub fn validation_digest(&self) -> (digest: InputDigest)
        ensures
            digest == self.validation_digest,
    {
        self.validation_digest
    }

    /// Stable logical labels and conservative resolved validation paths.
    pub fn inputs(&self) -> (inputs: &Vec<CargoBuildInput>)
        ensures
            *inputs == self.inputs,
    {
        &self.inputs
    }

    /// Generated-state roots excluded while recursively hashing local inputs.
    pub fn exclusions(&self) -> (roots: &Vec<Vec<u8>>)
        ensures
            *roots == self.exclusions,
    {
        &self.exclusions
    }

    /// Timings for tool identity, metadata, discovery, and content hashing.
    pub fn timings(&self) -> (timings: WasmInputResolutionTimings)
        ensures
            timings == self.timings,
    {
        self.timings
    }

    /// Whether a new resolution of the same specification has the same exact identity.
    pub fn is_current(&self, current: &ResolvedCargoBuildInputs) -> (same: bool)
        ensures
            same == (current.fingerprint@ == self.fingerprint@),
    {
        current.fingerprint == self.fingerprint
    }

    /// Start to rehash the discovered inputs, without what lies within the `excluded` roots.
    pub fn content_walk(&self, excluded: Vec<Vec<u8>>) -> (walk: PathDigestWalk)
        ensures
            walk.wf(),
            walk.is_between(),
            walk.state() == source_start(self@.inputs),
            walk.start() == walk.state(),
            walk.visits() == Seq::<Visit>::empty(),
            walk.visited() == Seq::<Seq<u8>>::empty(),
            walk.excluded() == byte_strings(excluded@),
    {
        let ghost all = self@.inputs;
        let mut paths: Vec<LabeledPath> = Vec::new();
        let mut at: usize = 0;
        assert(labeled_views(paths@) =~= all.take(0));
        while at < self.inputs.len()
            invariant
                at <= self.inputs@.len(),
                all == build_inputs_view(self.inputs@),
                labeled_views(paths@) == all.take(at as int),
            decreases self.inputs.len() - at,
        {
            let ghost before = labeled_views(paths@);
            paths.push(
                LabeledPath {
                    label: copy_bytes(self.inputs[at].label.as_slice()),
                    path: copy_bytes(self.inputs[at].path.as_slice()),
                },
            );
            proof {
                assert(labeled_views(paths@) =~= before.push(all[at as int]));
                assert(all.take(at + 1) =~= all.take(at as int).push(all[at as int]));
            }
            at = at + 1;
        }
        assert(all.take(at as int) =~= all);
        PathDigestWalk::new(SOURCE_DOMAIN, paths, excluded)
    }

    /// The conservative digest that a finished walk over the discovered inputs gives now.
    pub fn current_validation_digest(&self, walk: PathDigestWalk) -> (digest: InputDigest)
        requires
            walk.wf(),
            walk.is_between(),
            walk.pending().len() == 0,
            walk.start() == source_start(self@.inputs),
        ensures
            digest@ == tree_digest(walk.start(), walk.visits()),
            is_whole_walk(walk.start(), walk.visits(), walk.excluded()),
    {
        walk.finish()
    }

    /// Whether a finished walk over the discovered inputs met unchanged contents.
    pub fn is_content_current(&self, walk: PathDigestWalk) -> (same: bool)
        requires
            walk.wf(),
            walk.is_between(),
            walk.pending().len() == 0,
            walk.start() == source_start(self@.inputs),
        ensures
            same == (tree_digest(walk.start(), walk.visits()) == self.validation_digest@),
    {
        let current = self.current_validation_digest(walk);
        current == self.validation_digest
    }

    /// The same resolution without the time it took.
    pub fn without_timings(&self) -> (copy: ResolvedCargoBuildInputs)
        ensures
            same_resolution(copy, *self),
            is_zero_resolution(copy.timings),
    {
        ResolvedCargoBuildInputs {
            fingerprint: self.fingerprint,
            input_digest: self.input_digest,
            validation_digest: self.validation_digest,
            inputs: copy_inputs(&self.inputs),
            exclusions: copy_strings(&self.exclusions),
            timings: WasmInputResolutionTimings::default(),
        }
    }

    /// A copy of the resolution.
    pub fn duplicate(&self) -> (copy: ResolvedCargoBuildInputs)
        ensures
            same_resolution(copy, *self),
            copy.timings == self.timings,
    {
        let mut copy = self.without_timings();
        copy.timings = self.timings;
        copy
    }
}

/// The selected packages of a build and everything they depend on.
#[derive(Debug)]
pub struct PackageGraph {
    /// Every package that Cargo metadata describes.
    pub packages: Vec<MetadataPackage>,
    /// Identities of the selected packages and of all their dependencies, in order.
    pub closure: Vec<String>,
}

/// Whether a list of identities is the ordered dependency closure of the selected packages.
pub open spec fn is_closure(
    closure: Seq<Seq<char>>,
    selected: Seq<Seq<char>>,
    metadata: DocumentView,
) -> bool {
    &&& in_text_order(closure)
    &&& forall|id: Seq<char>|
        #![trigger closure.contains(id)]
        closure.contains(id) == is_reachable(id, selected, metadata_nodes_of(metadata)->Ok_0)
}

/// The first failure to read a package graph out of metadata: a missing part, a bad request, or a
/// bad dependency node.
pub open spec fn graph_error(
    requests: Seq<Seq<char>>,
    metadata: DocumentView,
    error: WasmBuildError,
) -> bool {
    match metadata_packages_of(metadata) {
        Err(expected) => error matches WasmBuildError::InvalidMetadata { message } && message@
            == expected,
        Ok(packages) => match member_items(metadata, "workspace_members"@) {
            None => error matches WasmBuildError::InvalidMetadata { message } && message@
                == "Cargo metadata has no workspace member array"@,
            Some(members) => match selected_ids(requests, packages, texts_among(members)) {
                Err(expected) => error matches WasmBuildError::InvalidSpec { message } && message@
                    == expected,
                Ok(_) => match metadata_nodes_of(metadata) {
                    Err(expected) => error matches WasmBuildError::InvalidMetadata { message }
                        && message@ == expected,
                    Ok(_) => false,
                },
            },
        },
    }
}

/// Whether metadata describes a package graph in which every request is found.
pub open spec fn graph_is_readable(requests: Seq<Seq<char>>, metadata: DocumentView) -> bool {
    &&& metadata_packages_of(metadata) is Ok
    &&& member_items(metadata, "workspace_members"@) is Some
    &&& selected_ids(
        requests,
        metadata_packages_of(metadata)->Ok_0,
        texts_among(member_items(metadata, "workspace_members"@)->0),
    ) is Ok
    &&& metadata_nodes_of(metadata) is Ok
}

/// Read the package graph of a build out of Cargo metadata.
pub fn resolve_package_graph(spec: &WasmBuildSpec, metadata: &Document) -> (result: Result<
    PackageGraph,
    WasmBuildError,
>)
    ensures
        result is Ok == graph_is_readable(spec@.packages, metadata@),
        result matches Ok(graph) ==> {
            &&& packages_view(graph.packages@) == metadata_packages_of(metadata@)->Ok_0
            &&& is_closure(
                texts(graph.closure@),
                selected_ids(
                    spec@.packages,
                    metadata_packages_of(metadata@)->Ok_0,
                    texts_among(member_items(metadata@, "workspace_members"@)->0),
                )->Ok_0,
                metadata@,
            )
        },
        result matches Err(error) ==> graph_error(spec@.packages, metadata@, error),
{
    let packages = match metadata_packages(metadata) {
        Ok(packages) => packages,
        Err(error) => return Err(error),
    };
    let selected = match selected_package_ids(spec.packages(), metadata, &packages) {
        Ok(selected) => selected,
        Err(error) => return Err(error),
    };
    let dependencies = match metadata_dependencies(metadata) {
        Ok(dependencies) => dependencies,
        Err(error) => return Err(error),
    };
    let closure = package_closure(&selected, &dependencies);
    Ok(PackageGraph { packages, closure })
}

/// Root of the workspace that metadata describes, else the configured one.
pub open spec fn workspace_root_of(spec: WasmBuildSpecView, metadata: DocumentView) -> Seq<u8> {
    match member_text(metadata, "workspace_root"@) {
        Some(root) => encode_utf8(root),
        None => spec.workspace_root,
    }
}

/// Root of the workspace that metadata describes, else the configured one.
pub fn metadata_workspace_root(spec: &WasmBuildSpec, metadata: &Document) -> (root: Vec<u8>)
    ensures
        root@ == workspace_root_of(spec@, metadata@),
{
    match metadata.get_text("workspace_root") {
        Some(root) => bytes_of(root.as_str()),
        None => copy_bytes(spec.workspace_root()),
    }
}

/// Which workspace-wide files exist.
#[derive(Clone, Copy, Debug, PartialEq, Eq, Structural)]
pub struct WorkspaceFiles {
    /// Whether the workspace manifest exists.
    pub manifest: bool,
    /// Whether the lockfile exists.
    pub lockfile: bool,
    /// Whether `rust-toolchain.toml` exists.
    pub toolchain_toml: bool,
    /// Whether `rust-toolchain` exists.
    pub toolchain: bool,
}

/// The input for a workspace-wide file, when the file exists.
pub open spec fn workspace_file(
    present: bool,
    workspace_root: Seq<u8>,
    name: Seq<char>,
) -> Seq<LabeledView> {
    if present {
        seq![
            LabeledView {
                label: encode_utf8("workspace/"@ + name),
                path: joined(workspace_root, encode_utf8(name)),
            },
        ]
    } else {
        seq![]
    }
}

/// The inputs for the workspace-wide files that exist.
pub open spec fn workspace_file_inputs(
    workspace_root: Seq<u8>,
    files: WorkspaceFiles,
) -> Seq<LabeledView> {
    workspace_file(files.manifest, workspace_root, "Cargo.toml"@) + workspace_file(
        files.lockfile,
        workspace_root,
        "Cargo.lock"@,
    ) + workspace_file(files.toolchain_toml, workspace_root, "rust-toolchain.toml"@)
        + workspace_file(files.toolchain, workspace_root, "rust-toolchain"@)
}

fn add_if_present(inputs: &mut Vec<LabeledPath>, present: bool, workspace_root: &[u8], name: &str)
    ensures
        labeled_views(final(inputs)@) == labeled_views(old(inputs)@) + workspace_file(
            present,
            workspace_root@,
            name@,
        ),
{
    let ghost before = labeled_views(inputs@);
    if present {
        let mut label = "workspace/".to_owned();
        label.append(name);
        inputs.push(
            LabeledPath {
                label: bytes_of(label.as_str()),
                path: join(workspace_root, name.as_bytes()),
            },
        );
        assert(labeled_views(inputs@) =~= before + workspace_file(
            present,
            workspace_root@,
            name@,
        ));
    } else {
        assert(labeled_views(inputs@) =~= before + workspace_file(
            present,
            workspace_root@,
            name@,
        ));
    }
}

/// The inputs for the workspace-wide files that exist.
pub fn workspace_configuration_inputs(workspace_root: &[u8], files: WorkspaceFiles) -> (inputs: Vec<
    LabeledPath,
>)
    ensures
        labeled_views(inputs@) == workspace_file_inputs(workspace_root@, files),
{
    let mut inputs: Vec<LabeledPath> = Vec::new();
    assert(labeled_views(inputs@) =~= seq![]);
    add_if_present(&mut inputs, files.manifest, workspace_root, "Cargo.toml");
    add_if_present(&mut inputs, files.lockfile, workspace_root, "Cargo.lock");
    add_if_present(&mut inputs, files.toolchain_toml, workspace_root, "rust-toolchain.toml");
    add_if_present(&mut inputs, files.toolchain, workspace_root, "rust-toolchain");
    assert(labeled_views(inputs@) =~= workspace_file_inputs(workspace_root@, files));
    inputs
}

/// The input for a local package: its directory, labeled by name, version and place.
pub open spec fn package_input(
    package: PackageView,
    workspace_root: Seq<u8>,
) -> Result<LabeledView, Seq<char>> {
    match parent_path(package.manifest_path) {
        None => Err("package `"@ + package.name + "` manifest has no parent"@),
        Some(root) => {
            let manifest = match stripped(package.manifest_path, workspace_root) {
                Some(relative) => relative,
                None => package.manifest_path,
            };
            let place = match parent_path(manifest) {
                Some(directory) => directory,
                None => encode_utf8("."@),
            };
            Ok(
                LabeledView {
                    label: joined(
                        encode_utf8("package/"@ + package.name + "@"@ + package.version),
                        place,
                    ),
                    path: root,
                },
            )
        },
    }
}

fn local_package_input(package: &MetadataPackage, workspace_root: &[u8]) -> (result: Result<
    LabeledPath,
    WasmBuildError,
>)
    ensures
        match (result, package_input(package@, workspace_root@)) {
            (Ok(input), Ok(expected)) => input@ == expected,
            (Err(WasmBuildError::InvalidMetadata { message }), Err(expected)) => message@
                == expected,
            _ => false,
        },
{
    let root = match parent(package.manifest_path.as_slice()) {
        Some(root) => root,
        None => {
            let mut message = "package `".to_owned();
            message.append(package.name.as_str());
            message.append("` manifest has no parent");
            return Err(WasmBuildError::InvalidMetadata { message });
        },
    };
    let manifest = match strip_prefix(package.manifest_path.as_slice(), workspace_root) {
        Some(relative) => relative,
        None => copy_bytes(package.manifest_path.as_slice()),
    };
    let place = match parent(manifest.as_slice()) {
        Some(directory) => directory,
        None => bytes_of("."),
    };
    let mut label = "package/".to_owned();
    label.append(package.name.as_str());
    label.append("@");
    label.append(package.version.as_str());
    Ok(LabeledPath { label: join(label.as_str().as_bytes(), place.as_slice()), path: root })
}

/// The inputs for the local packages of a closure, or what is wrong with the first bad one.
pub open spec fn package_inputs(
    ids: Seq<Seq<char>>,
    packages: Seq<PackageView>,
    workspace_root: Seq<u8>,
) -> Result<Seq<LabeledView>, Seq<char>>
    decreases ids.len(),
{
    if ids.len() == 0 {
        Ok(seq![])
    } else {
        match package_inputs(ids.drop_last(), packages, workspace_root) {
            Err(message) => Err(message),
            Ok(inputs) => match package_index(packages, ids.last(), 0) {
                None => Err("resolved package `"@ + ids.last() + "` is missing"@),
                Some(at) => if !packages[at].is_local {
                    Ok(inputs)
                } else {
                    match package_input(packages[at], workspace_root) {
                        Err(message) => Err(message),
                        Ok(input) => Ok(inputs.push(input)),
                    }
                },
            },
        }
    }
}

proof fn lemma_package_inputs_error(
    ids: Seq<Seq<char>>,
    packages: Seq<PackageView>,
    workspace_root: Seq<u8>,
    upto: int,
)
    requires
        0 <= upto <= ids.len(),
        package_inputs(ids.take(upto), packages, workspace_root) is Err,
    ensures
        package_inputs(ids, packages, workspace_root) == package_inputs(
            ids.take(upto),
            packages,
            workspace_root,
        ),
    decreases ids.len() - upto,
{
    if upto < ids.len() {
        assert(ids.take(upto + 1).drop_last() =~= ids.take(upto));
        lemma_package_inputs_error(ids, packages, workspace_root, upto + 1);
    } else {
        assert(ids.take(upto) =~= ids);
    }
}

/// Add the inputs for the local packages of a graph.
pub fn append_package_inputs(
    inputs: &mut Vec<LabeledPath>,
    graph: &PackageGraph,
    workspace_root: &[u8],
) -> (result: Result<(), WasmBuildError>)
    ensures
        match (
            result,
            package_inputs(
                texts(graph.closure@),
                packages_view(graph.packages@),
                workspace_root@,
            ),
        ) {
            (Ok(()), Ok(added)) => labeled_views(final(inputs)@) == labeled_views(old(inputs)@)
                + added,
            (Err(WasmBuildError::InvalidMetadata { message }), Err(expected)) => message@
                == expected,
            _ => false,
        },
{
    let ghost start = labeled_views(inputs@);
    let ghost ids = texts(graph.closure@);
    let ghost packages = packages_view(graph.packages@);
    let mut at: usize = 0;
    assert(ids.take(0) =~= seq![]);
    assert(start + seq![] =~= start);
    while at < graph.closure.len()
        invariant
            at <= graph.closure@.len(),
            ids == texts(graph.closure@),
            packages == packages_view(graph.packages@),
            package_inputs(ids.take(at as int), packages, workspace_root@) is Ok,
            labeled_views(inputs@) == start + package_inputs(
                ids.take(at as int),
                packages,
                workspace_root@,
            )->Ok_0,
        decreases graph.closure.len() - at,
    {
        proof {
            assert(ids.take(at + 1).drop_last() =~= ids.take(at as int));
            assert(ids.take(at + 1).last() == graph.closure@[at as int]@);
        }
        let id = graph.closure[at].as_str();
        let found = match find_package(&graph.packages, id) {
            Some(found) => found,
            None => {
                let mut message = "resolved package `".to_owned();
                message.append(id);
                message.append("` is missing");
                proof {
                    lemma_package_inputs_error(ids, packages, workspace_root@, at + 1);
                }
                return Err(WasmBuildError::InvalidMetadata { message });
            },
        };
        assert(packages[found as int] == graph.packages@[found as int]@);
        if graph.packages[found].is_local {
            match local_package_input(&graph.packages[found], workspace_root) {
                Err(error) => {
                    proof {
                        lemma_package_inputs_error(ids, packages, workspace_root@, at + 1);
                    }
                    return Err(error);
                },
                Ok(input) => {
                    let ghost before = labeled_views(inputs@);
                    inputs.push(input);
                    assert(labeled_views(inputs@) =~= before.push(input@));
                    assert(labeled_views(inputs@) =~= start + package_inputs(
                        ids.take(at + 1),
                        packages,
                        workspace_root@,
                    )->Ok_0);
                },
            }
        }
        at = at + 1;
    }
    assert(ids.take(at as int) =~= ids);
    Ok(())
}

/// The input for one declared path.
pub open spec fn additional_input(path: Seq<u8>, workspace_root: Seq<u8>) -> LabeledView {
    LabeledView {
        label: joined(encode_utf8("additional"@), path),
        path: if is_absolute_path(path) {
            path
        } else {
            joined(workspace_root, path)
        },
    }
}

/// The inputs for every declared path.
pub open spec fn additional_inputs(paths: Seq<Seq<u8>>, workspace_root: Seq<u8>) -> Seq<LabeledView> {
    paths.map_values(|path: Seq<u8>| additional_input(path, workspace_root))
}

/// Add the inputs for every declared path.
pub fn append_additional_inputs(
    inputs: &mut Vec<LabeledPath>,
    spec: &WasmBuildSpec,
    workspace_root: &[u8],
)
    ensures
        labeled_views(final(inputs)@) == labeled_views(old(inputs)@) + additional_inputs(
            spec@.additional_inputs,
            workspace_root@,
        ),
{
    let ghost start = labeled_views(inputs@);
    let paths = spec.additional_inputs();
    let ghost all = additional_inputs(spec@.additional_inputs, workspace_root@);
    let mut at: usize = 0;
    assert(start + all.take(0) =~= start);
    while at < paths.len()
        invariant
            at <= paths@.len(),
            byte_strings(paths@) == spec@.additional_inputs,
            all == additional_inputs(spec@.additional_inputs, workspace_root@),
            labeled_views(inputs@) == start + all.take(at as int),
        decreases paths.len() - at,
    {
        let ghost before = labeled_views(inputs@);
        let additional = paths[at].as_slice();
        assert(byte_strings(paths@)[at as int] == additional@);
        let path = if is_absolute(additional) {
            copy_bytes(additional)
        } else {
            join(workspace_root, additional)
        };
        inputs.push(LabeledPath { label: join("additional".as_bytes(), additional), path });
        proof {
            assert(inputs@.last()@ == all[at as int]);
            assert(labeled_views(inputs@) =~= before.push(all[at as int]));
            assert(all.take(at + 1) =~= all.take(at as int).push(all[at as int]));
            assert(labeled_views(inputs@) =~= start + all.take(at + 1));
        }
        at = at + 1;
    }
    assert(byte_strings(paths@).len() == paths@.len());
    assert(all.take(at as int) =~= all);
}

/// Whether an input is a workspace-wide file that the semantic projection replaces.
pub open spec fn is_broad(label: Seq<u8>) -> bool {
    ||| same_path(label, encode_utf8("workspace/Cargo.toml"@))
    ||| same_path(label, encode_utf8("workspace/Cargo.lock"@))
}

/// Whether an input is a workspace-wide file that the semantic projection replaces.
pub fn is_broad_workspace_input(label: &[u8]) -> (broad: bool)
    ensures
        broad == is_broad(label@),
{
    paths_equal(label, "workspace/Cargo.toml".as_bytes()) || paths_equal(
        label,
        "workspace/Cargo.lock".as_bytes(),
    )
}

/// The inputs that are not workspace-wide files, in order.
pub open spec fn narrow_inputs(inputs: Seq<LabeledView>) -> Seq<LabeledView> {
    inputs.filter(|input: LabeledView| !is_broad(input.label))
}

/// Copies of the inputs that are not workspace-wide files.
pub fn projected_inputs(inputs: &Vec<LabeledPath>) -> (narrow: Vec<LabeledPath>)
    ensures
        labeled_views(narrow@) == narrow_inputs(labeled_views(inputs@)),
{
    let ghost all = labeled_views(inputs@);
    let mut narrow: Vec<LabeledPath> = Vec::new();
    let mut at: usize = 0;
    assert(labeled_views(narrow@) =~= narrow_inputs(all.take(0))) by {
        reveal(Seq::filter);
    }
    while at < inputs.len()
        invariant
            at <= inputs@.len(),
            all == labeled_views(inputs@),
            labeled_views(narrow@) == narrow_inputs(all.take(at as int)),
        decreases inputs.len() - at,
    {
        proof {
            reveal(Seq::filter);
            assert(all.take(at + 1).drop_last() =~= all.take(at as int));
            assert(all.take(at + 1).last() == inputs@[at as int]@);
        }
        let input = &inputs[at];
        if !is_broad_workspace_input(input.label.as_slice()) {
            let ghost before = labeled_views(narrow@);
            narrow.push(
                LabeledPath {
                    label: copy_bytes(input.label.as_slice()),
                    path: copy_bytes(input.path.as_slice()),
                },
            );
            assert(labeled_views(narrow@) =~= before.push(input@));
        }
        at = at + 1;
    }
    assert(all.take(at as int) =~= all);
    narrow
}

/// How the contents of a build identify it.
#[derive(Debug)]
pub enum LocalInputFingerprint {
    /// Every input identifies the build.
    Conservative,
    /// The narrow inputs and a projection of the workspace identify the build.
    Projected {
        /// Inputs that are hashed as they are.
        inputs: Vec<LabeledPath>,
        /// Projection that stands for the workspace-wide files.
        workspace: InputDigest,
    },
}

/// The local inputs of a build.
#[derive(Debug)]
pub struct ResolvedLocalInputs {
    /// Every input, for the detection of changes.
    pub validation_inputs: Vec<LabeledPath>,
    /// How the inputs identify the build.
    pub fingerprint: LocalInputFingerprint,
}

/// Put together the local inputs of a build.
///
/// `configuration` are the discovered Cargo configuration files, `projection`
/// the semantic projection of the workspace when there is one.
pub fn resolve_local_inputs(
    spec: &WasmBuildSpec,
    graph: &PackageGraph,
    workspace_root: &[u8],
    files: WorkspaceFiles,
    configuration: Vec<LabeledPath>,
    projection: Option<InputDigest>,
) -> (result: Result<ResolvedLocalInputs, WasmBuildError>)
    ensures
        match (
            result,
            package_inputs(
                texts(graph.closure@),
                packages_view(graph.packages@),
                workspace_root@,
            ),
        ) {
            (Ok(resolved), Ok(packages)) => {
                let all = workspace_file_inputs(workspace_root@, files) + labeled_views(
                    configuration@,
                ) + packages + additional_inputs(spec@.additional_inputs, workspace_root@);
                &&& labeled_views(resolved.validation_inputs@) == all
                &&& match (resolved.fingerprint, projection) {
                    (LocalInputFingerprint::Conservative, None) => true,
                    (LocalInputFingerprint::Projected { inputs, workspace }, Some(expected)) => {
                        &&& labeled_views(inputs@) == narrow_inputs(all)
                        &&& workspace == expected
                    },
                    _ => false,
                }
            },
            (Err(WasmBuildError::InvalidMetadata { message }), Err(expected)) => message@
                == expected,
            _ => false,
        },
{
    let mut inputs = workspace_configuration_inputs(workspace_root, files);
    let mut configuration = configuration;
    let ghost first = labeled_views(inputs@);
    let ghost second = labeled_views(configuration@);
    inputs.append(&mut configuration);
    assert(labeled_views(inputs@) =~= first + second);
    match append_package_inputs(&mut inputs, graph, workspace_root) {
        Ok(()) => {},
        Err(error) => return Err(error),
    }
    append_additional_inputs(&mut inputs, spec, workspace_root);
    let fingerprint = match projection {
        None => LocalInputFingerprint::Conservative,
        Some(workspace) => LocalInputFingerprint::Projected {
            inputs: projected_inputs(&inputs),
            workspace,
        },
    };
    Ok(ResolvedLocalInputs { validation_inputs: inputs, fingerprint })
}

/// The semantic digest of a build's inputs.
///
/// `paths_digest` is the digest of the narrow inputs of a projected fingerprint.
pub fn semantic_input_digest(
    fingerprint: &LocalInputFingerprint,
    validation_digest: InputDigest,
    paths_digest: InputDigest,
) -> (digest: InputDigest)
    ensures
        match *fingerprint {
            LocalInputFingerprint::Conservative => digest == validation_digest,
            LocalInputFingerprint::Projected { workspace, .. } => digest@ == digest_of(
                "wasm-semantic-source-inputs-v1"@,
                seq![
                    field("path-input-digest"@, paths_digest@),
                    field("workspace-projection"@, workspace@),
                ],
            ),
        },
{
    match fingerprint {
        LocalInputFingerprint::Conservative => validation_digest,
        LocalInputFingerprint::Projected { workspace, .. } => {
            let mut hasher = InputHasher::new("wasm-semantic-source-inputs-v1");
            let ghost domain = hasher@;
            hasher.field("path-input-digest", paths_digest.as_bytes().as_slice());
            hasher.field("workspace-projection", workspace.as_bytes().as_slice());
            assert(hasher@ =~= domain + seq![
                field("path-input-digest"@, paths_digest@),
                field("workspace-projection"@, workspace@),
            ]);
            hasher.finish()
        },
    }
}

/// `target` and `.git` below each input that is a directory.
pub open spec fn generated_below(
    inputs: Seq<LabeledView>,
    directories: Seq<bool>,
) -> Seq<Seq<u8>>
    decreases inputs.len(),
{
    if inputs.len() == 0 || directories.len() < inputs.len() {
        seq![]
    } else {
        let before = generated_below(inputs.drop_last(), directories);
        if directories[inputs.len() - 1] {
            before.push(joined(inputs.last().path, encode_utf8("target"@))).push(
                joined(inputs.last().path, encode_utf8(".git"@)),
            )
        } else {
            before
        }
    }
}

/// Generated-state roots that are never hashed.
pub open spec fn exclusion_roots(
    spec: WasmBuildSpecView,
    inputs: Seq<LabeledView>,
    directories: Seq<bool>,
) -> Seq<Seq<u8>> {
    seq![
        spec.target_dir,
        joined(spec.workspace_root, encode_utf8("target"@)),
        joined(spec.workspace_root, encode_utf8(".git"@)),
    ] + (match shared_target_path(spec) {
        Some(target) => seq![target],
        None => seq![],
    }) + generated_below(inputs, directories)
}

/// Generated-state roots that are never hashed; `directories` says which inputs are directories.
pub fn source_exclusions(
    spec: &WasmBuildSpec,
    inputs: &Vec<LabeledPath>,
    directories: &Vec<bool>,
) -> (roots: Vec<Vec<u8>>)
    requires
        inputs@.len() == directories@.len(),
    ensures
        byte_strings(roots@) == exclusion_roots(spec@, labeled_views(inputs@), directories@),
{
    let mut roots: Vec<Vec<u8>> = Vec::new();
    roots.push(copy_bytes(spec.target_dir()));
    roots.push(join(spec.workspace_root(), "target".as_bytes()));
    roots.push(join(spec.workspace_root(), ".git".as_bytes()));
    if let Some(target) = shared_incremental_target(spec) {
        roots.push(target);
    }
    let ghost start = byte_strings(roots@);
    let ghost all = labeled_views(inputs@);
    proof {
        assert(start =~= seq![
            spec@.target_dir,
            joined(spec@.workspace_root, encode_utf8("target"@)),
            joined(spec@.workspace_root, encode_utf8(".git"@)),
        ] + (match shared_target_path(spec@) {
            Some(target) => seq![target],
            None => seq![],
        }));
        assert(all.take(0) =~= seq![]);
        assert(start + generated_below(all.take(0), directories@) =~= start);
    }
    let mut at: usize = 0;
    while at < inputs.len()
        invariant
            at <= inputs@.len(),
            inputs@.len() == directories@.len(),
            all == labeled_views(inputs@),
            byte_strings(roots@) == start + generated_below(all.take(at as int), directories@),
        decreases inputs.len() - at,
    {
        proof {
            assert(all.take(at + 1).drop_last() =~= all.take(at as int));
            assert(all.take(at + 1).last() == inputs@[at as int]@);
        }
        if directories[at] {
            let ghost before = byte_strings(roots@);
            let path = inputs[at].path.as_slice();
            roots.push(join(path, "target".as_bytes()));
            roots.push(join(path, ".git".as_bytes()));
            proof {
                assert(byte_strings(roots@) =~= before.push(
                    joined(path@, encode_utf8("target"@)),
                ).push(joined(path@, encode_utf8(".git"@))));
                assert(byte_strings(roots@) =~= start + generated_below(
                    all.take(at + 1),
                    directories@,
                ));
            }
        }
        at = at + 1;
    }
    assert(all.take(at as int) =~= all);
    roots
}

/// `target` below each input that is a directory.
pub open spec fn targets_below(inputs: Seq<LabeledView>, directories: Seq<bool>) -> Seq<Seq<u8>>
    decreases inputs.len(),
{
    if inputs.len() == 0 || directories.len() < inputs.len() {
        seq![]
    } else {
        let before = targets_below(inputs.drop_last(), directories);
        if directories[inputs.len() - 1] {
            before.push(joined(inputs.last().path, encode_utf8("target"@)))
        } else {
            before
        }
    }
}

/// Generated directories in which a shared target may lie.
pub open spec fn generated_roots_of(
    spec: WasmBuildSpecView,
    inputs: Seq<LabeledView>,
    directories: Seq<bool>,
) -> Seq<Seq<u8>> {
    seq![spec.target_dir, joined(spec.workspace_root, encode_utf8("target"@))] + targets_below(
        inputs,
        directories,
    )
}

/// Generated directories in which a shared target may lie.
pub fn generated_roots(
    spec: &WasmBuildSpec,
    inputs: &Vec<LabeledPath>,
    directories: &Vec<bool>,
) -> (roots: Vec<Vec<u8>>)
    requires
        inputs@.len() == directories@.len(),
    ensures
        byte_strings(roots@) == generated_roots_of(spec@, labeled_views(inputs@), directories@),
{
    let mut roots: Vec<Vec<u8>> = Vec::new();
    roots.push(copy_bytes(spec.target_dir()));
    roots.push(join(spec.workspace_root(), "target".as_bytes()));
    let ghost start = byte_strings(roots@);
    let ghost all = labeled_views(inputs@);
    proof {
        assert(start =~= seq![
            spec@.target_dir,
            joined(spec@.workspace_root, encode_utf8("target"@)),
        ]);
        assert(all.take(0) =~= seq![]);
        assert(start + targets_below(all.take(0), directories@) =~= start);
    }
    let mut at: usize = 0;
    while at < inputs.len()
        invariant
            at <= inputs@.len(),
            inputs@.len() == directories@.len(),
            all == labeled_views(inputs@),
            byte_strings(roots@) == start + targets_below(all.take(at as int), directories@),
        decreases inputs.len() - at,
    {
        proof {
            assert(all.take(at + 1).drop_last() =~= all.take(at as int));
            assert(all.take(at + 1).last() == inputs@[at as int]@);
        }
        if directories[at] {
            let ghost before = byte_strings(roots@);
            roots.push(join(inputs[at].path.as_slice(), "target".as_bytes()));
            proof {
                assert(byte_strings(roots@) =~= before.push(
                    joined(inputs@[at as int].path@, encode_utf8("target"@)),
                ));
                assert(byte_strings(roots@) =~= start + targets_below(
                    all.take(at + 1),
                    directories@,
                ));
            }
        }
        at = at + 1;
    }
    assert(all.take(at as int) =~= all);
    roots
}

/// An input under its canonical path.
#[derive(Debug)]
pub struct CanonicalInput {
    /// Canonical path of the input.
    pub path: Vec<u8>,
    /// Whether the input is a directory.
    pub is_directory: bool,
}

/// Whether a generated root is safe: no input lies within it.
pub open spec fn is_safe_root(root: Seq<u8>, inputs: Seq<CanonicalInput>) -> bool {
    forall|i: int| 0 <= i < inputs.len() ==> !is_within((#[trigger] inputs[i]).path@, root)
}

/// Whether a shared target lies within a safe generated root.
pub open spec fn is_generated(
    target: Seq<u8>,
    roots: Seq<Seq<u8>>,
    inputs: Seq<CanonicalInput>,
) -> bool {
    exists|i: int|
        0 <= i < roots.len() && is_safe_root(#[trigger] roots[i], inputs) && is_within(
            target,
            roots[i],
        )
}

/// Whether a shared target overlaps an input.
pub open spec fn overlaps(target: Seq<u8>, input: CanonicalInput) -> bool {
    ||| same_path(target, input.path@)
    ||| input.is_directory && is_within(target, input.path@)
    ||| is_within(input.path@, target)
}

/// Whether maintenance of a shared target could touch an exact input.
pub open spec fn endangers_inputs(
    target: Seq<u8>,
    roots: Seq<Seq<u8>>,
    inputs: Seq<CanonicalInput>,
) -> bool {
    &&& !is_generated(target, roots, inputs)
    &&& exists|i: int| 0 <= i < inputs.len() && overlaps(target, #[trigger] inputs[i])
}

fn root_is_safe(root: &[u8], inputs: &Vec<CanonicalInput>) -> (safe: bool)
    ensures
        safe == is_safe_root(root@, inputs@),
{
    let mut at: usize = 0;
    while at < inputs.len()
        invariant
            at <= inputs@.len(),
            forall|i: int| 0 <= i < at ==> !is_within((#[trigger] inputs@[i]).path@, root@),
        decreases inputs.len() - at,
    {
        if starts_with(inputs[at].path.as_slice(), root) {
            assert(is_within(inputs@[at as int].path@, root@));
            return false;
        }
        at = at + 1;
    }
    true
}

/// Reject a shared target that could touch an exact input.
///
/// `target`, `inputs` and `roots` are canonical; `roots` are those of
/// [`generated_roots`] that could be resolved.
pub fn validate_shared_incremental_target_boundary(
    target: &[u8],
    inputs: &Vec<CanonicalInput>,
    roots: &Vec<Vec<u8>>,
) -> (result: Result<(), WasmBuildError>)
    ensures
        result is Err == endangers_inputs(target@, byte_strings(roots@), inputs@),
        result matches Err(error) ==> {
            &&& error matches WasmBuildError::InvalidSpec { message }
            &&& message@ == "shared incremental target "@ + lossy_text(target@)
                + " must not overlap exact Cargo inputs unless it is inside a generated target directory"@
        },
{
    let ghost all = byte_strings(roots@);
    let mut at: usize = 0;
    while at < roots.len()
        invariant
            at <= roots@.len(),
            all == byte_strings(roots@),
            forall|i: int|
                0 <= i < at ==> !(is_safe_root(#[trigger] all[i], inputs@) && is_within(
                    target@,
                    all[i],
                )),
        decreases roots.len() - at,
    {
        assert(all[at as int] == roots@[at as int]@);
        if root_is_safe(roots[at].as_slice(), inputs) && starts_with(target, roots[at].as_slice()) {
            assert(is_generated(target@, all, inputs@));
            return Ok(());
        }
        at = at + 1;
    }
    assert(!is_generated(target@, all, inputs@));
    at = 0;
    while at < inputs.len()
        invariant
            at <= inputs@.len(),
            all == byte_strings(roots@),
            !is_generated(target@, all, inputs@),
            forall|i: int| 0 <= i < at ==> !overlaps(target@, #[trigger] inputs@[i]),
        decreases inputs.len() - at,
    {
        let input = &inputs[at];
        if paths_equal(target, input.path.as_slice()) || (input.is_directory && starts_with(
            target,
            input.path.as_slice(),
        )) || starts_with(input.path.as_slice(), target) {
            assert(overlaps(target@, inputs@[at as int]));
            let mut message = "shared incremental target ".to_owned();
            message.append(lossy(target).as_str());
            message.append(
                " must not overlap exact Cargo inputs unless it is inside a generated target directory",
            );
            return Err(WasmBuildError::InvalidSpec { message });
        }
        at = at + 1;
    }
    Ok(())
}

/// A shared target that is not a generated directory never contains an input and never lies
/// within an input directory.
pub proof fn lemma_accepted_target_is_apart(
    target: Seq<u8>,
    roots: Seq<Seq<u8>>,
    inputs: Seq<CanonicalInput>,
    at: int,
)
    requires
        !endangers_inputs(target, roots, inputs),
        !is_generated(target, roots, inputs),
        0 <= at < inputs.len(),
    ensures
        !is_within(inputs[at].path@, target),
        inputs[at].is_directory ==> !is_within(target, inputs[at].path@),
{
    assert(!overlaps(target, inputs[at]));
}

/// What a resolution found is current exactly when its inputs still hold what they held.
///
/// Nothing that lies in them may have changed: the same files with the same
/// bytes and the same directories under the same relative paths, outside the
/// exclusions. Then they are current; and inputs that are current hold the
/// same files and directories as before, unless SHA-256 collides.
pub proof fn lemma_current_means_unchanged(
    resolved: ResolvedView,
    visits: Seq<Visit>,
    places: spec_fn(Seq<u8>) -> Place,
    excluded: Seq<Seq<u8>>,
    later_visits: Seq<Visit>,
    later_places: spec_fn(Seq<u8>) -> Place,
    later_excluded: Seq<Seq<u8>>,
)
    requires
        is_whole_walk(source_start(resolved.inputs), visits, excluded),
        is_walk_over(places, source_start(resolved.inputs), visits),
        resolved.validation_digest == tree_digest(source_start(resolved.inputs), visits),
        is_whole_walk(source_start(resolved.inputs), later_visits, later_excluded),
        is_walk_over(later_places, source_start(resolved.inputs), later_visits),
    ensures
        places_alike(places, excluded, later_places, later_excluded) ==> tree_digest(
            source_start(resolved.inputs),
            later_visits,
        ) == resolved.validation_digest,
        ({
            let start = source_start(resolved.inputs);
            tree_digest(start, later_visits) == resolved.validation_digest && walk_fits(
                start,
                visits,
            ) && walk_fits(start, later_visits) ==> collides(
                frames(walked(start, met_of(visits)).fields),
                frames(walked(start, met_of(later_visits)).fields),
            ) || (lies_at(start, visits, later_places) && lies_at(start, later_visits, places))
        }),
{
    let inputs = resolved.inputs;
    let start = source_start(inputs);
    if places_alike(places, excluded, later_places, later_excluded) {
        lemma_same_trees_hash_alike(
            SOURCE_DOMAIN@,
            inputs,
            visits,
            places,
            excluded,
            inputs,
            later_visits,
            later_places,
            later_excluded,
        );
    }
    if tree_digest(start, later_visits) == resolved.validation_digest && walk_fits(start, visits)
        && walk_fits(start, later_visits) && !collides(
        frames(walked(start, met_of(visits)).fields),
        frames(walked(start, met_of(later_visits)).fields),
    ) {
        lemma_same_digest_means_same_trees(
            SOURCE_DOMAIN@,
            inputs,
            visits,
            places,
            inputs,
            later_visits,
            later_places,
        );
    }
}

/// Everything that one resolution pass found out about the contents of a build.
#[derive(Debug)]
pub struct DigestedInputs {
    /// Every input, for the detection of changes.
    pub validation_inputs: Vec<LabeledPath>,
    /// Generated-state roots that were not hashed.
    pub exclusions: Vec<Vec<u8>>,
    /// Semantic digest of the inputs.
    pub input_digest: InputDigest,
    /// Conservative digest of the inputs.
    pub validation_digest: InputDigest,
}

fn copy_labeled(inputs: &Vec<LabeledPath>) -> (copy: Vec<LabeledPath>)
    ensures
        labeled_views(copy@) == labeled_views(inputs@),
{
    let ghost all = labeled_views(inputs@);
    let mut copy: Vec<LabeledPath> = Vec::new();
    let mut at: usize = 0;
    assert(labeled_views(copy@) =~= all.take(0));
    while at < inputs.len()
        invariant
            at <= inputs@.len(),
            all == labeled_views(inputs@),
            labeled_views(copy@) == all.take(at as int),
        decreases inputs.len() - at,
    {
        let ghost before = labeled_views(copy@);
        copy.push(
            LabeledPath {
                label: copy_bytes(inputs[at].label.as_slice()),
                path: copy_bytes(inputs[at].path.as_slice()),
            },
        );
        proof {
            assert(labeled_views(copy@) =~= before.push(all[at as int]));
            assert(all.take(at + 1) =~= all.take(at as int).push(all[at as int]));
        }
        at = at + 1;
    }
    assert(all.take(at as int) =~= all);
    copy
}

/// Start to hash inputs of a build, without what lies within the `excluded` roots.
pub fn source_walk(inputs: &Vec<LabeledPath>, excluded: Vec<Vec<u8>>) -> (walk: PathDigestWalk)
    ensures
        walk.wf(),
        walk.is_between(),
        walk.state() == source_start(labeled_views(inputs@)),
        walk.start() == walk.state(),
        walk.visits() == Seq::<Visit>::empty(),
        walk.visited() == Seq::<Seq<u8>>::empty(),
        walk.excluded() == byte_strings(excluded@),
{
    PathDigestWalk::new(SOURCE_DOMAIN, copy_labeled(inputs), excluded)
}

/// What finished walks over the local inputs of a build found out.
///
/// `narrow` is the walk over the narrow inputs of a projected fingerprint.
pub fn digested_inputs(
    inputs: ResolvedLocalInputs,
    exclusions: Vec<Vec<u8>>,
    validation: PathDigestWalk,
    narrow: Option<PathDigestWalk>,
) -> (digested: DigestedInputs)
    requires
        validation.wf(),
        validation.is_between(),
        validation.pending().len() == 0,
        validation.start() == source_start(labeled_views(inputs.validation_inputs@)),
        inputs.fingerprint matches LocalInputFingerprint::Projected { inputs: chosen, .. } ==> {
            &&& narrow matches Some(walk)
            &&& walk.wf()
            &&& walk.is_between()
            &&& walk.pending().len() == 0
            &&& walk.start() == source_start(labeled_views(chosen@))
        },
    ensures
        digested.validation_inputs == inputs.validation_inputs,
        digested.exclusions == exclusions,
        digested.validation_digest@ == tree_digest(validation.start(), validation.visits()),
        is_whole_walk(validation.start(), validation.visits(), validation.excluded()),
        match inputs.fingerprint {
            LocalInputFingerprint::Conservative => digested.input_digest
                == digested.validation_digest,
            LocalInputFingerprint::Projected { workspace, .. } => digested.input_digest@
                == digest_of(
                "wasm-semantic-source-inputs-v1"@,
                seq![
                    field(
                        "path-input-digest"@,
                        tree_digest(narrow->0.start(), narrow->0.visits()),
                    ),
                    field("workspace-projection"@, workspace@),
                ],
            ),
        },
{
    let validation_digest = validation.finish();
    let input_digest = match (&inputs.fingerprint, narrow) {
        (LocalInputFingerprint::Projected { .. }, Some(walk)) => {
            semantic_input_digest(&inputs.fingerprint, validation_digest, walk.finish())
        },
        _ => validation_digest,
    };
    DigestedInputs {
        validation_inputs: inputs.validation_inputs,
        exclusions,
        input_digest,
        validation_digest,
    }
}

/// Put together the resolution of a build from what one pass found out.
pub fn finish_resolution(
    spec: &WasmBuildSpec,
    environment: &Vec<Setting>,
    cargo_identity: &[u8],
    rustc_identity: &[u8],
    digested: DigestedInputs,
    timings: WasmInputResolutionTimings,
) -> (resolved: ResolvedCargoBuildInputs)
    ensures
        resolved.fingerprint@ == digest_of(
            CACHE_FORMAT_VERSION@,
            fingerprint_fields(
                spec@,
                settings_view(environment@),
                cargo_identity@,
                rustc_identity@,
                digested.input_digest@,
            ),
        ),
        resolved.input_digest == digested.input_digest,
        resolved.validation_digest == digested.validation_digest,
        build_inputs_view(resolved.inputs@) == labeled_views(digested.validation_inputs@),
        resolved.exclusions == digested.exclusions,
        resolved.timings == timings,
{
    let fingerprint = finish_build_fingerprint(
        spec,
        environment,
        cargo_identity,
        rustc_identity,
        digested.input_digest,
    );
    let DigestedInputs { validation_inputs, exclusions, input_digest, validation_digest } =
        digested;
    let ghost all = labeled_views(validation_inputs@);
    let mut rest = validation_inputs;
    let mut inputs: Vec<CargoBuildInput> = Vec::new();
    while rest.len() > 0
        invariant
            inputs@.len() + rest@.len() == all.len(),
            labeled_views(rest@) == all.skip(inputs@.len() as int),
            build_inputs_view(inputs@) == all.take(inputs@.len() as int),
        decreases rest.len(),
    {
        let ghost before = build_inputs_view(inputs@);
        let ghost remaining = labeled_views(rest@);
        let LabeledPath { label, path } = rest.remove(0);
        let ghost at = inputs@.len() as int;
        assert(remaining[0] == all[at]);
        inputs.push(CargoBuildInput { label, path });
        proof {
            assert(build_inputs_view(inputs@) =~= before.push(all[at]));
            assert(all.take(at + 1) =~= all.take(at).push(all[at]));
            assert(labeled_views(rest@) =~= remaining.drop_first());
            assert(labeled_views(rest@) =~= all.skip(at + 1));
        }
    }
    assert(all.take(inputs@.len() as int) =~= all);
    ResolvedCargoBuildInputs {
        fingerprint,
        input_digest,
        validation_digest,
        inputs,
        exclusions,
        timings,
    }
}

} // verus!

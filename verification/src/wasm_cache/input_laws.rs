//! What the exact inputs of a build have to hold.

use vstd::prelude::*;
use vstd::string::*;
use vstd::utf8::encode_utf8;
use super::inputs::{
    additional_inputs, endangers_inputs, exclusion_roots, generated_below, graph_is_readable, generated_roots_of,
    is_closure, is_generated, is_safe_root, narrow_inputs, overlaps, package_input, package_inputs,
    targets_below, workspace_file, workspace_file_inputs, workspace_root_of, CanonicalInput,
    WorkspaceFiles,
};
use super::metadata::{
    dependencies_of, dependency_ids, is_dependency_path, is_reachable, last_node, metadata_nodes_of,
    node_of, nodes_of, package_index, package_of, packages_of, requested_packages, selected_ids,
    texts_among, with_package, DependencyView, PackageView,
};
use super::spec::{CacheModeView, WasmBuildSpecView};
use crate::document::{member_items, member_of, member_text, DocumentView};
use crate::numbers::plain_sum;
use crate::path_laws::{lemma_containment, lemma_parent_drops_the_last_component};
use crate::paths::{components, is_within, joined, parent_path, stripped};
use crate::tree::LabeledView;

verus! {

/// Whether the package that an identity stands for is the one at this place.
pub open spec fn stands_for(packages: Seq<PackageView>, id: Seq<char>, at: int) -> bool {
    &&& 0 <= at < packages.len()
    &&& packages[at].id == id
    &&& forall|k: int| 0 <= k < at ==> (#[trigger] packages[k]).id != id
}

proof fn lemma_index(packages: Seq<PackageView>, id: Seq<char>, from: int)
    requires
        0 <= from <= packages.len(),
        forall|k: int| 0 <= k < from ==> (#[trigger] packages[k]).id != id,
    ensures
        match package_index(packages, id, from) {
            Some(at) => stands_for(packages, id, at),
            None => forall|k: int| 0 <= k < packages.len() ==> (#[trigger] packages[k]).id != id,
        },
    decreases packages.len() - from,
{
    if from < packages.len() && packages[from].id != id {
        lemma_index(packages, id, from + 1);
    }
}

proof fn lemma_stands_once(packages: Seq<PackageView>, id: Seq<char>, at: int)
    requires
        stands_for(packages, id, at),
    ensures
        package_index(packages, id, 0) == Some(at),
{
    lemma_index(packages, id, 0);
    let found = package_index(packages, id, 0);
    if found is None {
        assert(packages[at].id != id);
    } else if found->0 < at {
        assert(packages[found->0].id != id);
    } else if at < found->0 {
        assert(packages[at].id != id);
    }
}

/// Whether the metadata describes a package of this identity.
pub open spec fn is_described(packages: Seq<PackageView>, id: Seq<char>) -> bool {
    exists|at: int| #[trigger] stands_for(packages, id, at)
}

/// One for an identity of a local package, else nothing.
pub open spec fn local_count(packages: Seq<PackageView>, id: Seq<char>) -> int {
    if exists|at: int| #[trigger] stands_for(packages, id, at) && packages[at].is_local {
        1
    } else {
        0
    }
}

/// The directory of every local package of the closure is an input, wherever in the closure it
/// stands, and there is one input for each local package and none besides.
pub proof fn lemma_every_local_package_is_an_input(
    ids: Seq<Seq<char>>,
    packages: Seq<PackageView>,
    workspace_root: Seq<u8>,
    inputs: Seq<LabeledView>,
)
    requires
        package_inputs(ids, packages, workspace_root) == Ok::<Seq<LabeledView>, Seq<char>>(inputs),
    ensures
        inputs.len() == plain_sum(ids.map_values(|id: Seq<char>| local_count(packages, id))),
        forall|i: int, at: int|
            0 <= i < ids.len() && #[trigger] stands_for(packages, ids[i], at)
                && packages[at].is_local ==> exists|k: int|
                0 <= k < inputs.len() && components((#[trigger] inputs[k]).path) == components(
                    packages[at].manifest_path,
                ).drop_last(),
        forall|i: int| 0 <= i < ids.len() ==> is_described(packages, #[trigger] ids[i]),
    decreases ids.len(),
{
    let count = |id: Seq<char>| local_count(packages, id);
    if ids.len() == 0 {
        assert(ids.map_values(count) =~= Seq::<int>::empty());
    } else {
        let shorter = ids.drop_last();
        let last = ids.last();
        let before = package_inputs(shorter, packages, workspace_root)->Ok_0;
        lemma_every_local_package_is_an_input(shorter, packages, workspace_root, before);
        assert(ids.map_values(count).drop_last() =~= shorter.map_values(count));
        lemma_index(packages, last, 0);
        let found = package_index(packages, last, 0)->0;
        assert(stands_for(packages, last, found));
        if packages[found].is_local {
            lemma_parent_drops_the_last_component(packages[found].manifest_path);
            assert(local_count(packages, last) == 1);
        } else {
            if exists|at: int| #[trigger] stands_for(packages, last, at) && packages[at].is_local {
                let at = choose|at: int| #[trigger]
                    stands_for(packages, last, at) && packages[at].is_local;
                lemma_stands_once(packages, last, at);
            }
            assert(local_count(packages, last) == 0);
        }
        assert forall|i: int, at: int|
            0 <= i < ids.len() && #[trigger] stands_for(packages, ids[i], at)
                && packages[at].is_local implies exists|k: int|
            0 <= k < inputs.len() && components((#[trigger] inputs[k]).path) == components(
                packages[at].manifest_path,
            ).drop_last() by {
            lemma_stands_once(packages, ids[i], at);
            if i < shorter.len() {
                assert(shorter[i] == ids[i]);
                assert(stands_for(packages, shorter[i], at));
                let k = choose|k: int|
                    0 <= k < before.len() && components((#[trigger] before[k]).path)
                        == components(packages[at].manifest_path).drop_last();
                assert(inputs[k] == before[k]);
            } else {
                assert(found == at);
                let k = inputs.len() - 1;
                assert(components(inputs[k].path) == components(
                    packages[at].manifest_path,
                ).drop_last());
            }
        }
        assert forall|i: int| 0 <= i < ids.len() implies is_described(
            packages,
            #[trigger] ids[i],
        ) by {
            if i < shorter.len() {
                assert(shorter[i] == ids[i]);
                assert(is_described(packages, shorter[i]));
            } else {
                assert(stands_for(packages, ids[i], found));
            }
        }
    }
}

/// One for a file that exists, else nothing.
pub open spec fn one_if(present: bool) -> int {
    if present {
        1
    } else {
        0
    }
}

/// Whether an input reads this path.
pub open spec fn reads(inputs: Seq<LabeledView>, path: Seq<u8>) -> bool {
    exists|k: int| 0 <= k < inputs.len() && (#[trigger] inputs[k]).path == path
}

/// The inputs of a build hold every workspace-wide file that exists, every configuration file,
/// every package input and every declared path, and nothing else.
pub proof fn lemma_inputs_are_complete(
    workspace_root: Seq<u8>,
    files: WorkspaceFiles,
    configuration: Seq<LabeledView>,
    packages: Seq<LabeledView>,
    declared: Seq<Seq<u8>>,
    inputs: Seq<LabeledView>,
)
    requires
        inputs == workspace_file_inputs(workspace_root, files) + configuration + packages
            + additional_inputs(declared, workspace_root),
    ensures
        inputs.len() == one_if(files.manifest) + one_if(files.lockfile) + one_if(
            files.toolchain_toml,
        ) + one_if(files.toolchain) + configuration.len() + packages.len() + declared.len(),
        files.manifest ==> reads(inputs, joined(workspace_root, encode_utf8("Cargo.toml"@))),
        files.lockfile ==> reads(inputs, joined(workspace_root, encode_utf8("Cargo.lock"@))),
        files.toolchain_toml ==> reads(
            inputs,
            joined(workspace_root, encode_utf8("rust-toolchain.toml"@)),
        ),
        files.toolchain ==> reads(inputs, joined(workspace_root, encode_utf8("rust-toolchain"@))),
        forall|i: int|
            0 <= i < configuration.len() ==> inputs.contains(#[trigger] configuration[i]),
        forall|i: int| 0 <= i < packages.len() ==> inputs.contains(#[trigger] packages[i]),
        forall|i: int| #![trigger declared[i]]
            0 <= i < declared.len() ==> reads(
                inputs,
                if declared[i].len() > 0 && declared[i][0] == 47 {
                    declared[i]
                } else {
                    joined(workspace_root, declared[i])
                },
            ),
{
    let first = workspace_file_inputs(workspace_root, files);
    let (a, b, c) = (one_if(files.manifest), one_if(files.lockfile), one_if(files.toolchain_toml));
    if files.manifest {
        assert(inputs[0].path == joined(workspace_root, encode_utf8("Cargo.toml"@)));
    }
    if files.lockfile {
        assert(inputs[a].path == joined(workspace_root, encode_utf8("Cargo.lock"@)));
    }
    if files.toolchain_toml {
        assert(inputs[a + b].path == joined(
            workspace_root,
            encode_utf8("rust-toolchain.toml"@),
        ));
    }
    if files.toolchain {
        assert(inputs[a + b + c].path == joined(workspace_root, encode_utf8("rust-toolchain"@)));
    }
    assert forall|i: int| 0 <= i < configuration.len() implies inputs.contains(
        #[trigger] configuration[i],
    ) by {
        assert(inputs[first.len() + i] == configuration[i]);
    }
    assert forall|i: int| 0 <= i < packages.len() implies inputs.contains(
        #[trigger] packages[i],
    ) by {
        assert(inputs[first.len() + configuration.len() + i] == packages[i]);
    }
    let more = additional_inputs(declared, workspace_root);
    assert forall|i: int| #![trigger declared[i]] 0 <= i < declared.len() implies reads(
        inputs,
        if declared[i].len() > 0 && declared[i][0] == 47 {
            declared[i]
        } else {
            joined(workspace_root, declared[i])
        },
    ) by {
        let k = first.len() + configuration.len() + packages.len() + i;
        assert(inputs[k] == more[i]);
    }
}

/// Of the inputs of a projected build, only the workspace manifest and lockfile are left out.
pub proof fn lemma_only_broad_files_are_projected(inputs: Seq<LabeledView>, at: int)
    requires
        0 <= at < inputs.len(),
    ensures
        narrow_inputs(inputs).contains(inputs[at]) <==> components(inputs[at].label) != components(
            encode_utf8("workspace/Cargo.toml"@),
        ) && components(inputs[at].label) != components(encode_utf8("workspace/Cargo.lock"@)),
        forall|k: int|
            0 <= k < narrow_inputs(inputs).len() ==> inputs.contains(
                #[trigger] narrow_inputs(inputs)[k],
            ),
{
    let keep = |input: LabeledView| !super::inputs::is_broad(input.label);
    let narrow = inputs.filter(keep);
    assert(narrow == narrow_inputs(inputs));
    if keep(inputs[at]) {
        inputs.lemma_filter_contains(keep, at);
    } else if narrow.contains(inputs[at]) {
        let k = narrow.index_of(inputs[at]);
        inputs.lemma_filter_pred(keep, k);
    }
    assert forall|k: int| 0 <= k < narrow.len() implies inputs.contains(#[trigger] narrow[k]) by {
        assert(narrow.contains(narrow[k]));
        inputs.lemma_filter_contains_rev(keep, narrow[k]);
    }
}

/// Whether a root is generated below one of the inputs that are directories.
pub open spec fn lies_below_input(
    root: Seq<u8>,
    inputs: Seq<LabeledView>,
    directories: Seq<bool>,
    name: Seq<u8>,
) -> bool {
    exists|i: int|
        0 <= i < inputs.len() && directories[i] && root == joined((#[trigger] inputs[i]).path, name)
}

proof fn lemma_generated(inputs: Seq<LabeledView>, directories: Seq<bool>, root: Seq<u8>)
    requires
        inputs.len() <= directories.len(),
    ensures
        generated_below(inputs, directories).contains(root) <==> lies_below_input(
            root,
            inputs,
            directories,
            encode_utf8("target"@),
        ) || lies_below_input(root, inputs, directories, encode_utf8(".git"@)),
        targets_below(inputs, directories).contains(root) <==> lies_below_input(
            root,
            inputs,
            directories,
            encode_utf8("target"@),
        ),
    decreases inputs.len(),
{
    if inputs.len() > 0 {
        let shorter = inputs.drop_last();
        let end = inputs.len() - 1;
        let (target, git) = (encode_utf8("target"@), encode_utf8(".git"@));
        lemma_generated(shorter, directories, root);
        let (all, before) = (
            generated_below(inputs, directories),
            generated_below(shorter, directories),
        );
        let (some, fewer) = (
            targets_below(inputs, directories),
            targets_below(shorter, directories),
        );
        lemma_below_grows(inputs, directories, root, target);
        lemma_below_grows(inputs, directories, root, git);
        let (x, y) = (joined(inputs[end].path, target), joined(inputs[end].path, git));
        if directories[end] {
            assert(all == before.push(x).push(y));
            lemma_push_contains(before, x, root);
            lemma_push_contains(before.push(x), y, root);
            assert(some == fewer.push(x));
            lemma_push_contains(fewer, x, root);
        }
    } else {
        assert(!lies_below_input(root, inputs, directories, encode_utf8("target"@)));
        assert(!lies_below_input(root, inputs, directories, encode_utf8(".git"@)));
    }
}

proof fn lemma_push_contains(items: Seq<Seq<u8>>, item: Seq<u8>, root: Seq<u8>)
    ensures
        items.push(item).contains(root) <==> items.contains(root) || item == root,
{
    let all = items.push(item);
    if items.contains(root) {
        let k = items.index_of(root);
        assert(all[k] == root);
    }
    if item == root {
        assert(all[items.len() as int] == root);
    }
    if all.contains(root) {
        let k = all.index_of(root);
        if k < items.len() {
            assert(items[k] == root);
        }
    }
}

proof fn lemma_below_grows(
    inputs: Seq<LabeledView>,
    directories: Seq<bool>,
    root: Seq<u8>,
    name: Seq<u8>,
)
    requires
        inputs.len() > 0,
    ensures
        lies_below_input(root, inputs, directories, name) <==> lies_below_input(
            root,
            inputs.drop_last(),
            directories,
            name,
        ) || (directories[inputs.len() - 1] && root == joined(inputs.last().path, name)),
{
    let shorter = inputs.drop_last();
    if lies_below_input(root, shorter, directories, name) {
        let i = choose|i: int|
            0 <= i < shorter.len() && directories[i] && root == joined(
                (#[trigger] shorter[i]).path,
                name,
            );
        assert(inputs[i] == shorter[i]);
    }
    if lies_below_input(root, inputs, directories, name) {
        let i = choose|i: int|
            0 <= i < inputs.len() && directories[i] && root == joined(
                (#[trigger] inputs[i]).path,
                name,
            );
        if i < shorter.len() {
            assert(shorter[i] == inputs[i]);
        }
    }
    assert(inputs[inputs.len() - 1] == inputs.last());
}

/// Nothing but generated state is left out of the inputs: the target directory, `target` and
/// `.git` of the workspace and of every input that is a directory, and a shared target.
pub proof fn lemma_only_generated_state_is_excluded(
    spec: WasmBuildSpecView,
    inputs: Seq<LabeledView>,
    directories: Seq<bool>,
    root: Seq<u8>,
)
    requires
        inputs.len() == directories.len(),
    ensures
        exclusion_roots(spec, inputs, directories).contains(root) <==> {
            ||| root == spec.target_dir
            ||| root == joined(spec.workspace_root, encode_utf8("target"@))
            ||| root == joined(spec.workspace_root, encode_utf8(".git"@))
            ||| lies_below_input(root, inputs, directories, encode_utf8("target"@))
            ||| lies_below_input(root, inputs, directories, encode_utf8(".git"@))
            ||| {
                &&& spec.cache_mode matches CacheModeView::SharedIncremental(target)
                &&& root == if target.len() > 0 && target[0] == 47 {
                    target
                } else {
                    joined(spec.workspace_root, target)
                }
            }
        },
        generated_roots_of(spec, inputs, directories).contains(root) <==> {
            ||| root == spec.target_dir
            ||| root == joined(spec.workspace_root, encode_utf8("target"@))
            ||| lies_below_input(root, inputs, directories, encode_utf8("target"@))
        },
{
    lemma_generated(inputs, directories, root);
    let (target, git) = (
        joined(spec.workspace_root, encode_utf8("target"@)),
        joined(spec.workspace_root, encode_utf8(".git"@)),
    );
    let none = Seq::<Seq<u8>>::empty();
    let two = none.push(spec.target_dir).push(target);
    let three = two.push(git);
    lemma_push_contains(none, spec.target_dir, root);
    lemma_push_contains(none.push(spec.target_dir), target, root);
    lemma_push_contains(two, git, root);
    let below = generated_below(inputs, directories);
    let some = targets_below(inputs, directories);
    let all = exclusion_roots(spec, inputs, directories);
    let fewer = generated_roots_of(spec, inputs, directories);
    let head = match super::identity::shared_target_path(spec) {
        Some(shared) => three.push(shared),
        None => three,
    };
    if let Some(shared) = super::identity::shared_target_path(spec) {
        lemma_push_contains(three, shared, root);
    }
    assert(all =~= head + below);
    assert(fewer =~= two + some);
    lemma_append_contains(head, below, root);
    lemma_append_contains(two, some, root);
}

proof fn lemma_append_contains(left: Seq<Seq<u8>>, right: Seq<Seq<u8>>, root: Seq<u8>)
    ensures
        (left + right).contains(root) <==> left.contains(root) || right.contains(root),
{
    let all = left + right;
    if left.contains(root) {
        let k = left.index_of(root);
        assert(all[k] == root);
    }
    if right.contains(root) {
        let k = right.index_of(root);
        assert(all[left.len() + k] == root);
    }
    if all.contains(root) {
        let k = all.index_of(root);
        if k < left.len() {
            assert(left[k] == root);
        } else {
            assert(right[k - left.len()] == root);
        }
    }
}

/// A shared target is rejected exactly when it touches an input, that is when it holds one or
/// lies in an input directory, and lies in no generated directory that is free of inputs.
pub proof fn lemma_rejected_targets(
    target: Seq<u8>,
    roots: Seq<Seq<u8>>,
    inputs: Seq<CanonicalInput>,
)
    ensures
        endangers_inputs(target, roots, inputs) <==> {
            &&& exists|i: int| #![trigger inputs[i]]
                0 <= i < inputs.len() && (components(target).is_prefix_of(
                    components(inputs[i].path@),
                ) || (inputs[i].is_directory && components(inputs[i].path@).is_prefix_of(
                    components(target),
                )))
            &&& forall|k: int| #![trigger roots[k]]
                0 <= k < roots.len() && components(roots[k]).is_prefix_of(components(target))
                    ==> exists|i: int| #![trigger inputs[i]]
                    0 <= i < inputs.len() && components(roots[k]).is_prefix_of(
                        components(inputs[i].path@),
                    )
        },
{
    let a = components(target);
    assert forall|i: int| 0 <= i < inputs.len() implies (overlaps(target, #[trigger] inputs[i])
        <==> a.is_prefix_of(components(inputs[i].path@)) || (inputs[i].is_directory && components(
        inputs[i].path@,
    ).is_prefix_of(a))) by {
        lemma_containment(inputs[i].path@, target);
        lemma_containment(target, inputs[i].path@);
        if components(target) == components(inputs[i].path@) {
            assert(a.is_prefix_of(components(inputs[i].path@))) by {
                assert(a.take(a.len() as int) =~= a);
            }
        }
    }
    if endangers_inputs(target, roots, inputs) {
        let i = choose|i: int| 0 <= i < inputs.len() && overlaps(target, #[trigger] inputs[i]);
        assert(overlaps(target, inputs[i]));
        assert forall|k: int| #![trigger roots[k]]
            0 <= k < roots.len() && components(roots[k]).is_prefix_of(a) implies exists|i: int|
            #![trigger inputs[i]]
            0 <= i < inputs.len() && components(roots[k]).is_prefix_of(
                components(inputs[i].path@),
            ) by {
            assert(is_within(target, roots[k]));
            assert(!is_safe_root(roots[k], inputs));
            let m = choose|m: int|
                0 <= m < inputs.len() && is_within((#[trigger] inputs[m]).path@, roots[k]);
            assert(is_within(inputs[m].path@, roots[k]));
        }
    }
    if is_generated(target, roots, inputs) {
        let k = choose|k: int|
            0 <= k < roots.len() && is_safe_root(#[trigger] roots[k], inputs) && is_within(
                target,
                roots[k],
            );
        assert(components(roots[k]).is_prefix_of(a));
        assert forall|i: int| #![trigger inputs[i]] 0 <= i < inputs.len() implies !components(
            roots[k],
        ).is_prefix_of(components(inputs[i].path@)) by {
            assert(!is_within(inputs[i].path@, roots[k]));
        }
    }
}

/// Whether a list of packages is called for by one name: the package of that name among the
/// workspace members.
pub open spec fn is_called(
    package: PackageView,
    requested: Seq<char>,
    members: Seq<Seq<char>>,
) -> bool {
    package.name == requested && members.contains(package.id)
}

/// Every requested name selects the one workspace member of that name; a name of none or of
/// several is refused.
pub proof fn lemma_requests_select_members(
    requests: Seq<Seq<char>>,
    packages: Seq<PackageView>,
    members: Seq<Seq<char>>,
)
    ensures
        selected_ids(requests, packages, members) matches Ok(ids) ==> {
            &&& ids.len() == requests.len()
            &&& forall|i: int| #![trigger requests[i]]
                0 <= i < requests.len() ==> exists|k: int| #![trigger packages[k]]
                    0 <= k < packages.len() && is_called(packages[k], requests[i], members)
                        && ids[i] == packages[k].id
            &&& forall|i: int, k: int, l: int|
                #![trigger requests[i], packages[k], packages[l]]
                0 <= i < requests.len() && 0 <= k < l < packages.len() ==> !(is_called(
                    packages[k],
                    requests[i],
                    members,
                ) && is_called(packages[l], requests[i], members))
        },
        (forall|i: int| #![trigger requests[i]]
            0 <= i < requests.len() ==> is_called_once(packages, requests[i], members))
            ==> selected_ids(requests, packages, members) is Ok,
    decreases requests.len(),
{
    if requests.len() > 0 {
        let shorter = requests.drop_last();
        let last = requests.last();
        lemma_requests_select_members(shorter, packages, members);
        let keep = |package: PackageView| super::metadata::is_requested(package, last, members);
        let found = requested_packages(packages, last, members);
        assert(found == packages.filter(keep));
        if forall|i: int| #![trigger requests[i]]
            0 <= i < requests.len() ==> is_called_once(packages, requests[i], members) {
            assert forall|i: int| #![trigger shorter[i]] 0 <= i < shorter.len() implies
                is_called_once(packages, shorter[i], members) by {
                assert(requests[i] == shorter[i]);
            }
            assert(is_called_once(packages, requests[requests.len() - 1], members));
            lemma_called_once(packages, last, members);
        }
        if let Ok(ids) = selected_ids(requests, packages, members) {
            let before = selected_ids(shorter, packages, members)->Ok_0;
            assert(found.len() == 1);
            lemma_one_called(packages, last, members);
            assert(found.contains(found[0]));
            packages.lemma_filter_contains_rev(keep, found[0]);
            packages.lemma_filter_pred(keep, 0);
            let at = packages.index_of(found[0]);
            assert forall|i: int| #![trigger requests[i]]
                0 <= i < requests.len() implies exists|k: int| #![trigger packages[k]]
                0 <= k < packages.len() && is_called(packages[k], requests[i], members) && ids[i]
                    == packages[k].id by {
                if i < shorter.len() {
                    assert(shorter[i] == requests[i]);
                    let k = choose|k: int| #![trigger packages[k]]
                        0 <= k < packages.len() && is_called(packages[k], shorter[i], members)
                            && before[i] == packages[k].id;
                    assert(is_called(packages[k], requests[i], members) && ids[i]
                        == packages[k].id);
                } else {
                    assert(is_called(packages[at], requests[i], members));
                }
            }
            assert forall|i: int, k: int, l: int|
                #![trigger requests[i], packages[k], packages[l]]
                0 <= i < requests.len() && 0 <= k < l < packages.len() implies !(is_called(
                packages[k],
                requests[i],
                members,
            ) && is_called(packages[l], requests[i], members)) by {
                if i < shorter.len() {
                    assert(shorter[i] == requests[i]);
                }
            }
        }
    }
}

/// Whether exactly one package is called by a name.
pub open spec fn is_called_once(
    packages: Seq<PackageView>,
    requested: Seq<char>,
    members: Seq<Seq<char>>,
) -> bool {
    &&& exists|k: int|
        0 <= k < packages.len() && is_called(#[trigger] packages[k], requested, members)
    &&& forall|k: int, l: int|
        #![trigger packages[k], packages[l]]
        0 <= k < l < packages.len() ==> !(is_called(packages[k], requested, members) && is_called(
            packages[l],
            requested,
            members,
        ))
}

proof fn lemma_called_once(
    packages: Seq<PackageView>,
    requested: Seq<char>,
    members: Seq<Seq<char>>,
)
    requires
        is_called_once(packages, requested, members),
    ensures
        requested_packages(packages, requested, members).len() == 1,
{
    let k = choose|k: int|
        0 <= k < packages.len() && is_called(#[trigger] packages[k], requested, members);
    lemma_called_at(packages, requested, members, k);
}

proof fn lemma_none_called(
    packages: Seq<PackageView>,
    requested: Seq<char>,
    members: Seq<Seq<char>>,
)
    requires
        forall|k: int|
            0 <= k < packages.len() ==> !is_called(#[trigger] packages[k], requested, members),
    ensures
        requested_packages(packages, requested, members).len() == 0,
    decreases packages.len(),
{
    reveal(Seq::filter);
    if packages.len() > 0 {
        let shorter = packages.drop_last();
        assert forall|k: int| 0 <= k < shorter.len() implies !is_called(
            #[trigger] shorter[k],
            requested,
            members,
        ) by {
            assert(!is_called(packages[k], requested, members));
        }
        lemma_none_called(shorter, requested, members);
        assert(!is_called(packages[packages.len() - 1], requested, members));
    }
}

proof fn lemma_called_at(
    packages: Seq<PackageView>,
    requested: Seq<char>,
    members: Seq<Seq<char>>,
    at: int,
)
    requires
        0 <= at < packages.len(),
        is_called(packages[at], requested, members),
        forall|k: int|
            0 <= k < packages.len() && k != at ==> !is_called(
                #[trigger] packages[k],
                requested,
                members,
            ) || k == at,
        forall|k: int, l: int|
            #![trigger packages[k], packages[l]]
            0 <= k < l < packages.len() ==> !(is_called(packages[k], requested, members)
                && is_called(packages[l], requested, members)),
    ensures
        requested_packages(packages, requested, members).len() == 1,
    decreases packages.len(),
{
    reveal(Seq::filter);
    let shorter = packages.drop_last();
    let end = packages.len() - 1;
    if at == end {
        assert forall|k: int| 0 <= k < shorter.len() implies !is_called(
            #[trigger] shorter[k],
            requested,
            members,
        ) by {
            assert(packages[k] == shorter[k]);
            assert(!(is_called(packages[k], requested, members) && is_called(
                packages[end],
                requested,
                members,
            )));
        }
        lemma_none_called(shorter, requested, members);
    } else {
        assert(!(is_called(packages[at], requested, members) && is_called(
            packages[end],
            requested,
            members,
        )));
        assert(shorter[at] == packages[at]);
        assert forall|k: int, l: int|
            #![trigger shorter[k], shorter[l]]
            0 <= k < l < shorter.len() implies !(is_called(shorter[k], requested, members)
            && is_called(shorter[l], requested, members)) by {
            assert(packages[k] == shorter[k] && packages[l] == shorter[l]);
        }
        assert forall|k: int| 0 <= k < shorter.len() && k != at implies !is_called(
            #[trigger] shorter[k],
            requested,
            members,
        ) || k == at by {
            assert(packages[k] == shorter[k]);
        }
        lemma_called_at(shorter, requested, members, at);
    }
}

proof fn lemma_one_called(
    packages: Seq<PackageView>,
    requested: Seq<char>,
    members: Seq<Seq<char>>,
)
    requires
        requested_packages(packages, requested, members).len() <= 1,
    ensures
        forall|k: int, l: int|
            #![trigger packages[k], packages[l]]
            0 <= k < l < packages.len() ==> !(is_called(packages[k], requested, members)
                && is_called(packages[l], requested, members)),
    decreases packages.len(),
{
    reveal(Seq::filter);
    if packages.len() > 0 {
        let shorter = packages.drop_last();
        let end = packages.len() - 1;
        lemma_one_called(shorter, requested, members);
        assert forall|k: int, l: int|
            #![trigger packages[k], packages[l]]
            0 <= k < l < packages.len() implies !(is_called(packages[k], requested, members)
            && is_called(packages[l], requested, members)) by {
            assert(shorter[k] == packages[k]);
            if l < end {
                assert(shorter[l] == packages[l]);
            } else if is_called(packages[k], requested, members) && is_called(
                packages[l],
                requested,
                members,
            ) {
                let keep = |package: PackageView|
                    super::metadata::is_requested(package, requested, members);
                assert(shorter.filter(keep) == requested_packages(shorter, requested, members));
                shorter.lemma_filter_contains(keep, k);
                assert(shorter.filter(keep).len() > 0);
            }
        }
    }
}

/// Whether the node at this place is the last one of its package.
pub open spec fn is_last_node(nodes: Seq<DependencyView>, at: int) -> bool {
    &&& 0 <= at < nodes.len()
    &&& forall|k: int| at < k < nodes.len() ==> (#[trigger] nodes[k]).id != nodes[at].id
}

proof fn lemma_last_node(nodes: Seq<DependencyView>, at: int, upto: int)
    requires
        is_last_node(nodes, at),
        at < upto <= nodes.len(),
    ensures
        last_node(nodes, nodes[at].id, upto) == Some(at),
    decreases upto,
{
    if upto - 1 > at {
        assert(nodes[upto - 1].id != nodes[at].id);
        lemma_last_node(nodes, at, upto - 1);
    }
}

/// The closure holds every selected package and, with a package, everything that the package
/// depends on.
pub proof fn lemma_closure_is_closed(
    closure: Seq<Seq<char>>,
    selected: Seq<Seq<char>>,
    metadata: DocumentView,
    nodes: Seq<DependencyView>,
)
    requires
        is_closure(closure, selected, metadata),
        metadata_nodes_of(metadata) == Ok::<Seq<DependencyView>, Seq<char>>(nodes),
    ensures
        forall|i: int| 0 <= i < selected.len() ==> closure.contains(#[trigger] selected[i]),
        forall|at: int, d: int|
            #![trigger nodes[at].deps[d]]
            is_last_node(nodes, at) && closure.contains(nodes[at].id) && 0 <= d
                < nodes[at].deps.len() ==> closure.contains(nodes[at].deps[d]),
{
    assert forall|i: int| 0 <= i < selected.len() implies closure.contains(
        #[trigger] selected[i],
    ) by {
        let path = seq![selected[i]];
        assert(selected.contains(path[0]));
        assert(is_dependency_path(path, selected, nodes));
        assert(is_reachable(selected[i], selected, nodes));
    }
    assert forall|at: int, d: int|
        #![trigger nodes[at].deps[d]]
        is_last_node(nodes, at) && closure.contains(nodes[at].id) && 0 <= d
            < nodes[at].deps.len() implies closure.contains(nodes[at].deps[d]) by {
        let id = nodes[at].id;
        let dep = nodes[at].deps[d];
        assert(is_reachable(id, selected, nodes));
        let path = choose|path: Seq<Seq<char>>| #[trigger]
            is_dependency_path(path, selected, nodes) && path.last() == id;
        let longer = path.push(dep);
        lemma_last_node(nodes, at, nodes.len() as int);
        assert(dependencies_of(nodes, id) == nodes[at].deps);
        assert(dependencies_of(nodes, id).contains(dep));
        assert forall|i: int| 0 <= i < longer.len() - 1 implies dependencies_of(
            nodes,
            #[trigger] longer[i],
        ).contains(longer[i + 1]) by {
            if i < path.len() - 1 {
                assert(longer[i] == path[i] && longer[i + 1] == path[i + 1]);
            }
        }
        assert(longer[0] == path[0]);
        assert(is_dependency_path(longer, selected, nodes));
        assert(longer.last() == dep);
        assert(is_reachable(dep, selected, nodes));
    }
}

/// Nothing gets into the closure but through a selected package or a dependency: a set that holds
/// the selected packages and what its packages depend on holds the closure.
pub proof fn lemma_closure_is_least(
    closure: Seq<Seq<char>>,
    selected: Seq<Seq<char>>,
    metadata: DocumentView,
    nodes: Seq<DependencyView>,
    wide: Set<Seq<char>>,
    id: Seq<char>,
)
    requires
        is_closure(closure, selected, metadata),
        metadata_nodes_of(metadata) == Ok::<Seq<DependencyView>, Seq<char>>(nodes),
        forall|i: int| 0 <= i < selected.len() ==> wide.contains(#[trigger] selected[i]),
        forall|at: int, d: int|
            #![trigger nodes[at].deps[d]]
            0 <= at < nodes.len() && wide.contains(nodes[at].id) && 0 <= d < nodes[at].deps.len()
                ==> wide.contains(nodes[at].deps[d]),
        closure.contains(id),
    ensures
        wide.contains(id),
{
    assert(is_reachable(id, selected, nodes));
    let path = choose|path: Seq<Seq<char>>| #[trigger]
        is_dependency_path(path, selected, nodes) && path.last() == id;
    lemma_path_stays(path, selected, nodes, wide, path.len() - 1);
}

proof fn lemma_path_stays(
    path: Seq<Seq<char>>,
    selected: Seq<Seq<char>>,
    nodes: Seq<DependencyView>,
    wide: Set<Seq<char>>,
    at: int,
)
    requires
        is_dependency_path(path, selected, nodes),
        forall|i: int| 0 <= i < selected.len() ==> wide.contains(#[trigger] selected[i]),
        forall|at: int, d: int|
            #![trigger nodes[at].deps[d]]
            0 <= at < nodes.len() && wide.contains(nodes[at].id) && 0 <= d < nodes[at].deps.len()
                ==> wide.contains(nodes[at].deps[d]),
        0 <= at < path.len(),
    ensures
        wide.contains(path[at]),
    decreases at,
{
    if at == 0 {
        let i = selected.index_of(path[0]);
        assert(wide.contains(selected[i]));
    } else {
        lemma_path_stays(path, selected, nodes, wide, at - 1);
        let id = path[at - 1];
        assert(dependencies_of(nodes, path[at - 1]).contains(path[at - 1 + 1]));
        lemma_last_node_bounds(nodes, id, nodes.len() as int);
        let k = last_node(nodes, id, nodes.len() as int)->0;
        let d = nodes[k].deps.index_of(path[at]);
        assert(nodes[k].deps[d] == path[at]);
    }
}

proof fn lemma_last_node_bounds(nodes: Seq<DependencyView>, id: Seq<char>, upto: int)
    requires
        0 <= upto <= nodes.len(),
    ensures
        last_node(nodes, id, upto) matches Some(at) ==> 0 <= at < upto && nodes[at].id == id,
    decreases upto,
{
    if upto > 0 {
        lemma_last_node_bounds(nodes, id, upto - 1);
    }
}

/// A package is local exactly when its metadata says that it has no source, and it bears the
/// identity, name, version and manifest that the metadata gives.
pub proof fn lemma_packages_are_read(value: DocumentView)
    ensures
        package_of(value) matches Ok(package) ==> {
            &&& member_text(value, "id"@) == Some(package.id)
            &&& member_text(value, "name"@) == Some(package.name)
            &&& member_text(value, "version"@) == Some(package.version)
            &&& member_text(value, "manifest_path"@) is Some
            &&& package.manifest_path == encode_utf8(member_text(value, "manifest_path"@)->0)
            &&& package.is_local <==> member_of(value, "source"@) is Some && member_of(
                value,
                "source"@,
            )->0.shape is Null
        },
        package_of(value) is Ok <==> {
            &&& member_text(value, "id"@) is Some
            &&& member_text(value, "name"@) is Some
            &&& member_text(value, "version"@) is Some
            &&& member_text(value, "manifest_path"@) is Some
            &&& member_of(value, "source"@) matches Some(source) ==> source.shape is Null
                || source.shape is Text
        },
{
}

/// Every package of the metadata is known afterwards; of several entries of one identity the last
/// counts.
pub proof fn lemma_no_package_is_lost(values: Seq<DocumentView>, packages: Seq<PackageView>)
    requires
        packages_of(values) == Ok::<Seq<PackageView>, Seq<char>>(packages),
    ensures
        forall|i: int| #![trigger values[i]] 0 <= i < values.len() ==> package_of(values[i]) is Ok,
        forall|i: int| #![trigger values[i]]
            0 <= i < values.len() && (forall|k: int|
                i < k < values.len() ==> package_of(#[trigger] values[k])->Ok_0.id != package_of(
                    values[i],
                )->Ok_0.id) ==> packages.contains(package_of(values[i])->Ok_0),
        forall|a: int, b: int|
            #![trigger packages[a], packages[b]]
            0 <= a < b < packages.len() ==> packages[a].id != packages[b].id,
    decreases values.len(),
{
    if values.len() > 0 {
        let shorter = values.drop_last();
        let before = packages_of(shorter)->Ok_0;
        let last = package_of(values.last())->Ok_0;
        lemma_no_package_is_lost(shorter, before);
        lemma_index(before, last.id, 0);
        let known = package_index(before, last.id, 0);
        assert(packages == with_package(before, last));
        assert forall|i: int| #![trigger values[i]] 0 <= i < values.len() implies package_of(
            values[i],
        ) is Ok by {
            if i < shorter.len() {
                assert(shorter[i] == values[i]);
            }
        }
        assert forall|i: int| #![trigger values[i]]
            0 <= i < values.len() && (forall|k: int|
                i < k < values.len() ==> package_of(#[trigger] values[k])->Ok_0.id != package_of(
                    values[i],
                )->Ok_0.id) implies packages.contains(package_of(values[i])->Ok_0) by {
            let package = package_of(values[i])->Ok_0;
            if i < shorter.len() {
                assert(shorter[i] == values[i]);
                assert forall|k: int| i < k < shorter.len() implies package_of(
                    #[trigger] shorter[k],
                )->Ok_0.id != package.id by {
                    assert(values[k] == shorter[k]);
                }
                assert(package_of(values[values.len() - 1])->Ok_0.id != package.id);
                let at = before.index_of(package);
                assert(packages[at] == package);
            } else {
                match known {
                    Some(at) => assert(packages[at] == package),
                    None => assert(packages[before.len() as int] == package),
                }
            }
        }
        assert forall|a: int, b: int|
            #![trigger packages[a], packages[b]]
            0 <= a < b < packages.len() implies packages[a].id != packages[b].id by {
            if b < before.len() {
                assert(before[a].id != before[b].id);
            } else {
                assert(before[a].id != last.id);
            }
        }
    }
}

/// A dependency node names every dependency that its metadata lists.
pub proof fn lemma_dependencies_are_read(value: DocumentView, node: DependencyView)
    requires
        node_of(value) == Ok::<DependencyView, Seq<char>>(node),
    ensures
        member_text(value, "id"@) == Some(node.id),
        member_items(value, "deps"@) is Some,
        node.deps.len() == member_items(value, "deps"@)->0.len(),
        forall|i: int| #![trigger node.deps[i]]
            0 <= i < node.deps.len() ==> member_text(member_items(value, "deps"@)->0[i], "pkg"@)
                == Some(node.deps[i]),
{
    lemma_dependency_ids(member_items(value, "deps"@)->0, node.deps);
}

proof fn lemma_dependency_ids(values: Seq<DocumentView>, ids: Seq<Seq<char>>)
    requires
        dependency_ids(values) == Ok::<Seq<Seq<char>>, Seq<char>>(ids),
    ensures
        ids.len() == values.len(),
        forall|i: int| #![trigger ids[i]]
            0 <= i < ids.len() ==> member_text(values[i], "pkg"@) == Some(ids[i]),
    decreases values.len(),
{
    if values.len() > 0 {
        let before = dependency_ids(values.drop_last())->Ok_0;
        lemma_dependency_ids(values.drop_last(), before);
        assert forall|i: int| #![trigger ids[i]] 0 <= i < ids.len() implies member_text(
            values[i],
            "pkg"@,
        ) == Some(ids[i]) by {
            if i < before.len() {
                assert(before[i] == ids[i]);
                assert(values.drop_last()[i] == values[i]);
            }
        }
    }
}

/// Every resolved node is read, in order.
pub proof fn lemma_no_node_is_lost(values: Seq<DocumentView>, nodes: Seq<DependencyView>)
    requires
        nodes_of(values) == Ok::<Seq<DependencyView>, Seq<char>>(nodes),
    ensures
        nodes.len() == values.len(),
        forall|i: int| #![trigger nodes[i]]
            0 <= i < nodes.len() ==> node_of(values[i]) == Ok::<DependencyView, Seq<char>>(
                nodes[i],
            ),
    decreases values.len(),
{
    if values.len() > 0 {
        let before = nodes_of(values.drop_last())->Ok_0;
        lemma_no_node_is_lost(values.drop_last(), before);
        assert forall|i: int| #![trigger nodes[i]] 0 <= i < nodes.len() implies node_of(values[i])
            == Ok::<DependencyView, Seq<char>>(nodes[i]) by {
            if i < before.len() {
                assert(before[i] == nodes[i]);
                assert(values.drop_last()[i] == values[i]);
            }
        }
    }
}

/// The input of a package is the directory of its manifest, under a label of its name, its version
/// and its place in the workspace; a declared path is an input under its own name, a relative one
/// below the workspace; and a workspace-wide file is one under its own name where it exists.
pub proof fn lemma_labels_of_inputs(
    package: PackageView,
    workspace_root: Seq<u8>,
    paths: Seq<Seq<u8>>,
    present: bool,
    name: Seq<char>,
)
    ensures
        package_input(package, workspace_root) is Ok <==> parent_path(package.manifest_path)
            is Some,
        package_input(package, workspace_root) matches Ok(input) ==> {
            let head = encode_utf8("package/"@ + package.name + "@"@ + package.version);
            let manifest = if is_within(package.manifest_path, workspace_root) {
                stripped(package.manifest_path, workspace_root)->0
            } else {
                package.manifest_path
            };
            &&& Some(input.path) == parent_path(package.manifest_path)
            &&& parent_path(manifest) matches Some(place) ==> input.label == joined(head, place)
            &&& parent_path(manifest) is None ==> input.label == joined(head, encode_utf8("."@))
        },
        additional_inputs(paths, workspace_root).len() == paths.len(),
        forall|i: int|
            #![trigger paths[i]]
            0 <= i < paths.len() ==> {
                let input = additional_inputs(paths, workspace_root)[i];
                &&& input.label == joined(encode_utf8("additional"@), paths[i])
                &&& paths[i].len() > 0 && paths[i][0] == 47 ==> input.path == paths[i]
                &&& paths[i].len() == 0 || paths[i][0] != 47 ==> input.path == joined(
                    workspace_root,
                    paths[i],
                )
            },
        !present ==> workspace_file(present, workspace_root, name).len() == 0,
        present ==> workspace_file(present, workspace_root, name).len() == 1 && workspace_file(
            present,
            workspace_root,
            name,
        )[0].label == encode_utf8("workspace/"@ + name) && workspace_file(
            present,
            workspace_root,
            name,
        )[0].path == joined(workspace_root, encode_utf8(name)),
{
}

/// The root of the workspace is the one that the metadata name, or else the one that was asked for.
pub proof fn lemma_root_of_workspace(spec: WasmBuildSpecView, metadata: DocumentView)
    ensures
        member_text(metadata, "workspace_root"@) matches Some(root) ==> workspace_root_of(
            spec,
            metadata,
        ) == encode_utf8(root),
        member_text(metadata, "workspace_root"@) is None ==> workspace_root_of(spec, metadata)
            == spec.workspace_root,
{
}

/// A dependency graph is read exactly when the metadata list packages, workspace members and
/// dependency nodes that can be read, and each request selects one member.
pub proof fn lemma_readable_graphs(requests: Seq<Seq<char>>, metadata: DocumentView)
    ensures
        graph_is_readable(requests, metadata) <==> {
            &&& member_items(metadata, "packages"@) matches Some(values) && packages_of(values)
                is Ok
            &&& member_items(metadata, "workspace_members"@) matches Some(members) && selected_ids(
                requests,
                packages_of(member_items(metadata, "packages"@)->0)->Ok_0,
                texts_among(members),
            ) is Ok
            &&& member_of(metadata, "resolve"@) matches Some(resolve) && (member_items(
                resolve,
                "nodes"@,
            ) matches Some(nodes) && nodes_of(nodes) is Ok)
        },
{
}

} // verus!

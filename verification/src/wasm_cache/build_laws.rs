//! What identifies a build, what it produces, and when its artifacts can be reused.

use vstd::prelude::*;
use vstd::string::*;
use vstd::utf8::encode_utf8;
use super::acquire::all_match;
use super::error::{WasmBuildError, WasmBuildPhase};
use super::identity::{
    ambient_names, ambient_value, artifact_matches, artifact_paths, automatic_names, beside,
    cache_entry_path, distinct_packages, environment_of, inherited_settings, lemma_stamp_identifies_build, missing_of,
    resolution_arguments, shared_target_path, spec_violation, stamp_text, without_repeats,
    ArtifactState,
};
use super::progress::{
    failure_phase_of, phase_recorded, unobserved_phase, WasmBuildFailurePhase,
    WasmBuildFailureTimings, WasmBuildProgressPhase,
};
use super::session::{
    found_count, key_of, members_of, same_spec, snapshot_index, timed_index, GroupEntry,
    InputSnapshot,
};
use super::shared::{cleared_children, must_clear};
use super::spec::{
    effective_rustc, unset_names, with_settings, CacheModeView, SharedIncrementalTargetPrunePolicy,
    WasmBuildSpec, WasmBuildSpecView,
};
use crate::digest::hex;
use crate::numbers::plain_sum;
use crate::order::{
    bytes_less, lemma_bytes_less_total, lemma_bytes_less_transitive, lemma_bytes_order,
    lemma_sorted_is_in_order, lemma_sorted_is_permutation, sorted_by, text_before,
};
use crate::path_laws::{has_no_slash, lemma_file_names};
use crate::paths::{components, file_name_of, joined, lemma_spans};
use crate::settings::{
    in_name_order, lemma_with_setting_order, lemma_with_setting_value, setting_of, SettingView,
};
use crate::timing::Duration;

verus! {

/// A build is accepted exactly when it names a package, a profile directory and a target, its
/// shared target has a path, and scheduled maintenance has a shared target to maintain.
pub proof fn lemma_accepted_builds(spec: WasmBuildSpecView)
    ensures
        spec_violation(spec) is None <==> {
            &&& spec.packages.len() > 0
            &&& spec.profile_target_dir.len() > 0
            &&& spec.target.len() > 0
            &&& spec.cache_mode matches CacheModeView::SharedIncremental(dir) ==> dir.len() > 0
            &&& spec.shared_incremental_maintenance is Some ==> spec.cache_mode
                is SharedIncremental
        },
{
}

/// A shared target lies where it was asked for: at an absolute path, or below the workspace.
pub proof fn lemma_shared_targets(spec: WasmBuildSpecView)
    ensures
        shared_target_path(spec) is Some <==> spec.cache_mode is SharedIncremental,
        spec.cache_mode matches CacheModeView::SharedIncremental(dir) ==> shared_target_path(spec)
            == Some(
            if dir.len() > 0 && dir[0] == 47 {
                dir
            } else {
                joined(spec.workspace_root, dir)
            },
        ),
{
}

proof fn lemma_settings_added(settings: Seq<SettingView>, added: Seq<SettingView>, name: Seq<u8>)
    requires
        in_name_order(settings),
    ensures
        in_name_order(with_settings(settings, added)),
        setting_of(with_settings(settings, added), name) == match setting_of(added, name) {
            Some(value) => Some(value),
            None => setting_of(settings, name),
        },
    decreases added.len(),
{
    if added.len() > 0 {
        let before = with_settings(settings, added.drop_last());
        lemma_settings_added(settings, added.drop_last(), name);
        lemma_with_setting_order(before, added.last().name, added.last().value);
        lemma_with_setting_value(before, added.last().name, added.last().value, name);
    }
}

proof fn lemma_setting_known(settings: Seq<SettingView>, name: Seq<u8>)
    ensures
        setting_of(settings, name) is Some <==> names_setting(settings, name),
    decreases settings.len(),
{
    if settings.len() > 0 {
        let shorter = settings.drop_last();
        lemma_setting_known(shorter, name);
        if names_setting(shorter, name) {
            let i = choose|i: int| 0 <= i < shorter.len() && (#[trigger] shorter[i]).name == name;
            assert(settings[i].name == name);
        }
        if names_setting(settings, name) {
            let i = choose|i: int| 0 <= i < settings.len() && (#[trigger] settings[i]).name == name;
            if i < shorter.len() {
                assert(shorter[i].name == name);
            }
        }
        assert(settings[settings.len() - 1] == settings.last());
    }
}

/// Whether settings speak of a name.
pub open spec fn names_setting(settings: Seq<SettingView>, name: Seq<u8>) -> bool {
    exists|i: int| 0 <= i < settings.len() && (#[trigger] settings[i]).name == name
}

proof fn lemma_inherited(names: Seq<SettingView>, ambient: Seq<SettingView>, name: Seq<u8>)
    ensures
        setting_of(inherited_settings(names, ambient), name) == if names_setting(names, name) {
            Some(ambient_value(ambient, name))
        } else {
            None
        },
        in_name_order(names) ==> in_name_order(inherited_settings(names, ambient)),
    decreases names.len(),
{
    let all = inherited_settings(names, ambient);
    if in_name_order(names) {
        assert forall|i: int, j: int|
            #![trigger all[i], all[j]]
            0 <= i < j < all.len() implies bytes_less(all[i].name, all[j].name) by {
            assert(bytes_less(names[i].name, names[j].name));
        }
    }
    if names.len() > 0 {
        let shorter = names.drop_last();
        lemma_inherited(shorter, ambient, name);
        assert(all.drop_last() =~= inherited_settings(shorter, ambient));
        if names_setting(shorter, name) {
            let i = choose|i: int| 0 <= i < shorter.len() && (#[trigger] shorter[i]).name == name;
            assert(names[i].name == name);
        }
        if names_setting(names, name) {
            let i = choose|i: int| 0 <= i < names.len() && (#[trigger] names[i]).name == name;
            if i < shorter.len() {
                assert(shorter[i].name == name);
            }
        }
        assert(names[names.len() - 1] == names.last());
    }
}

/// Whether a variable is always taken over from the surroundings.
pub open spec fn is_automatic(name: Seq<u8>) -> bool {
    ||| name == encode_utf8("CARGO_BUILD_RUSTC"@)
    ||| name == encode_utf8("CARGO_ENCODED_RUSTFLAGS"@)
    ||| name == encode_utf8("RUSTC"@)
    ||| name == encode_utf8("RUSTC_WRAPPER"@)
    ||| name == encode_utf8("RUSTC_WORKSPACE_WRAPPER"@)
    ||| name == encode_utf8("RUSTFLAGS"@)
    ||| name == encode_utf8("RUSTUP_TOOLCHAIN"@)
}

/// The environment of a build gives to each name what the build sets; else, for an inherited or
/// automatic name, what the surroundings say, also that they do not set it; and speaks of no
/// other name.
pub proof fn lemma_environment_of_build(
    spec: WasmBuildSpecView,
    ambient: Seq<SettingView>,
    name: Seq<u8>,
)
    requires
        in_name_order(spec.inherited_env),
    ensures
        setting_of(environment_of(spec, ambient), name) == match setting_of(spec.extra_env, name) {
            Some(value) => Some(value),
            None => if is_automatic(name) || names_setting(spec.inherited_env, name) {
                Some(
                    match setting_of(ambient, name) {
                        Some(value) => value,
                        None => None,
                    },
                )
            } else {
                None
            },
        },
        in_name_order(environment_of(spec, ambient)),
{
    let automatic = unset_names(automatic_names());
    let names = ambient_names(spec);
    lemma_settings_added(spec.inherited_env, automatic, name);
    lemma_setting_known(automatic, name);
    lemma_setting_known(spec.inherited_env, name);
    lemma_setting_known(names, name);
    assert(automatic.len() == 7);
    assert(automatic[0].name == encode_utf8("CARGO_BUILD_RUSTC"@));
    assert(automatic[1].name == encode_utf8("CARGO_ENCODED_RUSTFLAGS"@));
    assert(automatic[2].name == encode_utf8("RUSTC"@));
    assert(automatic[3].name == encode_utf8("RUSTC_WRAPPER"@));
    assert(automatic[4].name == encode_utf8("RUSTC_WORKSPACE_WRAPPER"@));
    assert(automatic[5].name == encode_utf8("RUSTFLAGS"@));
    assert(automatic[6].name == encode_utf8("RUSTUP_TOOLCHAIN"@));
    assert(names_setting(automatic, name) <==> is_automatic(name));
    lemma_inherited(names, ambient, name);
    lemma_settings_added(inherited_settings(names, ambient), spec.extra_env, name);
}

/// Packages are built once each, by name: those that were asked for, and no others.
pub proof fn lemma_packages_are_distinct(packages: Seq<Seq<char>>)
    ensures
        forall|i: int, j: int|
            #![trigger distinct_packages(packages)[i], distinct_packages(packages)[j]]
            0 <= i < j < distinct_packages(packages).len() ==> bytes_less(
                encode_utf8(distinct_packages(packages)[i]),
                encode_utf8(distinct_packages(packages)[j]),
            ),
        forall|package: Seq<char>| #[trigger]
            distinct_packages(packages).contains(package) <==> packages.contains(package),
{
    broadcast use vstd::seq_lib::group_to_multiset_ensures;

    let before = text_before();
    let sorted = sorted_by(packages, before);
    lemma_bytes_order(|text: Seq<char>| encode_utf8(text), before);
    lemma_sorted_is_in_order(packages, before);
    lemma_sorted_is_permutation(packages, before);
    lemma_without_repeats(sorted);
    assert forall|package: Seq<char>| #[trigger]
        distinct_packages(packages).contains(package) <==> packages.contains(package) by {
        assert(sorted.to_multiset().count(package) == packages.to_multiset().count(package));
        assert(sorted.contains(package) <==> packages.contains(package));
    }
}

proof fn lemma_without_repeats(items: Seq<Seq<char>>)
    requires
        forall|i: int, j: int|
            #![trigger items[i], items[j]]
            0 <= i < j < items.len() ==> !text_before()(items[j], items[i]),
    ensures
        ({
            let some = without_repeats(items);
            &&& forall|i: int, j: int|
                #![trigger some[i], some[j]]
                0 <= i < j < some.len() ==> bytes_less(encode_utf8(some[i]), encode_utf8(some[j]))
            &&& forall|item: Seq<char>| #[trigger] some.contains(item) <==> items.contains(item)
            &&& items.len() > 0 ==> some.len() > 0 && some.last() == items.last()
        }),
    decreases items.len(),
{
    broadcast use vstd::utf8::encode_utf8_decode_utf8;

    let some = without_repeats(items);
    if items.len() > 0 {
        let shorter = items.drop_last();
        let last = items.last();
        let fewer = without_repeats(shorter);
        assert forall|i: int, j: int|
            #![trigger shorter[i], shorter[j]]
            0 <= i < j < shorter.len() implies !text_before()(shorter[j], shorter[i]) by {
            assert(items[i] == shorter[i] && items[j] == shorter[j]);
        }
        lemma_without_repeats(shorter);
        assert(items[items.len() - 1] == last);
        let repeated = items.len() > 1 && items[items.len() - 2] == last;
        assert forall|item: Seq<char>| #[trigger] some.contains(item) <==> items.contains(
            item,
        ) by {
            if items.contains(item) {
                let k = items.index_of(item);
                if k < shorter.len() {
                    assert(shorter[k] == item);
                    assert(fewer.contains(item));
                    let m = fewer.index_of(item);
                    assert(some[m] == item);
                } else if repeated {
                    assert(shorter[items.len() - 2] == item);
                    assert(fewer.contains(item));
                } else {
                    assert(some[fewer.len() as int] == item);
                }
            }
            if some.contains(item) {
                let m = some.index_of(item);
                if m < fewer.len() {
                    assert(fewer[m] == item);
                    assert(fewer.contains(item));
                    let k = shorter.index_of(item);
                    assert(items[k] == item);
                }
            }
        }
        if !repeated {
            assert forall|i: int, j: int|
                #![trigger some[i], some[j]]
                0 <= i < j < some.len() implies bytes_less(
                encode_utf8(some[i]),
                encode_utf8(some[j]),
            ) by {
                assert(some[i] == fewer[i]);
                if j < fewer.len() {
                    assert(some[j] == fewer[j]);
                } else {
                    let near = shorter.last();
                    assert(items[items.len() - 2] == near);
                    assert(!text_before()(items[items.len() - 1], items[items.len() - 2]));
                    assert(vstd::utf8::decode_utf8(encode_utf8(near)) == near);
                    assert(vstd::utf8::decode_utf8(encode_utf8(last)) == last);
                    lemma_bytes_less_total(encode_utf8(near), encode_utf8(last));
                    if i < fewer.len() - 1 {
                        assert(bytes_less(
                            encode_utf8(fewer[i]),
                            encode_utf8(fewer[fewer.len() - 1]),
                        ));
                        lemma_bytes_less_transitive(
                            encode_utf8(fewer[i]),
                            encode_utf8(near),
                            encode_utf8(last),
                        );
                    }
                }
            }
        }
    }
}

/// Every package has its artifact, `<target>/<profile>/<package>.wasm` below the target directory.
pub proof fn lemma_artifacts_of_packages(spec: WasmBuildSpecView, target_dir: Seq<u8>)
    ensures
        artifact_paths(spec, target_dir).len() == distinct_packages(spec.packages).len(),
        forall|i: int| #![trigger artifact_paths(spec, target_dir)[i]]
            0 <= i < distinct_packages(spec.packages).len() ==> artifact_paths(spec, target_dir)[i]
                == joined(
                joined(
                    joined(target_dir, encode_utf8(spec.target)),
                    encode_utf8(spec.profile_target_dir),
                ),
                encode_utf8(distinct_packages(spec.packages)[i] + ".wasm"@),
            ),
{
}

/// Whether an argument alone steers the resolution of packages.
pub open spec fn is_lone_flag(argument: Seq<u8>) -> bool {
    ||| argument == encode_utf8("--all-features"@)
    ||| argument == encode_utf8("--no-default-features"@)
    ||| argument == encode_utf8("--locked"@)
    ||| argument == encode_utf8("--offline"@)
    ||| argument == encode_utf8("--frozen"@)
    ||| encode_utf8("--features="@).is_prefix_of(argument)
    ||| encode_utf8("--filter-platform="@).is_prefix_of(argument)
}

/// Whether an argument takes the next one as its value.
pub open spec fn takes_value(argument: Seq<u8>) -> bool {
    ||| argument == encode_utf8("--features"@)
    ||| argument == encode_utf8("-F"@)
    ||| argument == encode_utf8("--filter-platform"@)
}

/// Cargo metadata receives the arguments that steer resolution, with their values and in order,
/// and no others.
pub proof fn lemma_metadata_arguments(first: Seq<u8>, value: Seq<u8>, rest: Seq<Seq<u8>>)
    ensures
        resolution_arguments(Seq::<Seq<u8>>::empty()) == Seq::<Seq<u8>>::empty(),
        is_lone_flag(first) && !takes_value(first) ==> resolution_arguments(seq![first] + rest)
            == seq![first] + resolution_arguments(rest),
        takes_value(first) && !is_lone_flag(first) ==> resolution_arguments(
            seq![first, value] + rest,
        ) == seq![first, value] + resolution_arguments(rest),
        takes_value(first) && !is_lone_flag(first) ==> resolution_arguments(seq![first])
            == seq![first],
        !is_lone_flag(first) && !takes_value(first) ==> resolution_arguments(seq![first] + rest)
            == resolution_arguments(rest),
{
    let (one, two) = (seq![first] + rest, seq![first, value] + rest);
    assert(one.drop_first() =~= rest);
    assert(two.drop_first() =~= seq![value] + rest);
    assert((seq![value] + rest).drop_first() =~= rest);
    assert(seq![first].drop_first() =~= Seq::<Seq<u8>>::empty());
}

/// An artifact matches one build at most: it is a nonempty file whose stamp names its own digest
/// and that build.
pub proof fn lemma_artifact_matches_one_build(
    state: ArtifactState,
    fingerprint: Seq<u8>,
    other: Seq<u8>,
)
    requires
        artifact_matches(state, fingerprint),
        fingerprint.len() == 32,
        other.len() == 32,
    ensures
        state.is_file,
        state.bytes > 0,
        state.digest is Some,
        state.stamp is Some,
        state.stamp->0@ == stamp_text(fingerprint, state.digest->0@),
        artifact_matches(state, other) ==> fingerprint == other,
{
    crate::digest::lemma_digest_length(state.digest->0);
    if artifact_matches(state, other) {
        lemma_stamp_identifies_build(
            fingerprint,
            state.digest->0@,
            other,
            state.digest->0@,
        );
    }
}

/// Artifacts are reused only as a whole: one that does not match spoils the set.
pub proof fn lemma_one_bad_artifact_spoils_the_set(
    states: Seq<ArtifactState>,
    fingerprint: Seq<u8>,
    at: int,
)
    requires
        0 <= at < states.len(),
        !states[at].is_file || states[at].bytes == 0 || states[at].digest is None
            || states[at].stamp is None,
    ensures
        !all_match(states, fingerprint),
{
    assert(!artifact_matches(states[at], fingerprint));
}

/// What is missing after a build is exactly what is no file or an empty one.
pub proof fn lemma_missing_artifacts(
    paths: Seq<Seq<u8>>,
    states: Seq<ArtifactState>,
)
    requires
        paths.len() == states.len(),
    ensures
        missing_of(paths, states).len() == plain_sum(
            states.map_values(
                |state: ArtifactState|
                    if state.is_file && state.bytes > 0 {
                        0int
                    } else {
                        1int
                    },
            ),
        ),
        forall|i: int| #![trigger states[i]]
            0 <= i < states.len() && !(states[i].is_file && states[i].bytes > 0) ==> missing_of(
                paths,
                states,
            ).contains(paths[i]),
    decreases paths.len(),
{
    let count = |state: ArtifactState|
        if state.is_file && state.bytes > 0 {
            0int
        } else {
            1int
        };
    if paths.len() == 0 {
        assert(states.map_values(count) =~= Seq::<int>::empty());
    } else {
        let end = paths.len() - 1;
        let (shorter, fewer) = (paths.drop_last(), states.drop_last());
        lemma_missing_artifacts(shorter, fewer);
        assert(states.take(end) =~= fewer);
        assert(states.map_values(count).drop_last() =~= fewer.map_values(count));
        let (before, all) = (missing_of(shorter, fewer), missing_of(paths, states));
        assert forall|i: int| #![trigger states[i]]
            0 <= i < states.len() && !(states[i].is_file
                && states[i].bytes > 0) implies all.contains(paths[i]) by {
            if i < end {
                assert(fewer[i] == states[i]);
                assert(before.contains(shorter[i]));
                let k = before.index_of(shorter[i]);
                assert(all[k] == paths[i]);
            } else {
                assert(all[before.len() as int] == paths[i]);
            }
        }
    }
}

/// Builds that share one resolution run the same Cargo and compiler in the same workspace, with
/// the same arguments for resolution and the same environment.
pub proof fn lemma_grouped_builds_agree(
    left: WasmBuildSpecView,
    left_ambient: Seq<SettingView>,
    right: WasmBuildSpecView,
    right_ambient: Seq<SettingView>,
)
    ensures
        key_of(left, left_ambient) == key_of(right, right_ambient) <==> {
            &&& components(left.workspace_root) == components(right.workspace_root)
            &&& left.cargo_program == right.cargo_program
            &&& effective_rustc(left) == effective_rustc(right)
            &&& resolution_arguments(left.cargo_profile_args) == resolution_arguments(
                right.cargo_profile_args,
            )
            &&& environment_of(left, left_ambient) == environment_of(right, right_ambient)
        },
        effective_rustc(left) == match setting_of(left.extra_env, encode_utf8("RUSTC"@)) {
            Some(Some(value)) => value,
            _ => left.rustc_program,
        },
{
}

/// A kept resolution serves exactly the builds that agree with its own in everything that matters;
/// paths agree when their components do.
pub proof fn lemma_kept_resolution_serves_its_build(
    left: WasmBuildSpecView,
    right: WasmBuildSpecView,
)
    ensures
        same_spec(left, right) <==> {
            &&& components(left.workspace_root) == components(right.workspace_root)
            &&& components(left.target_dir) == components(right.target_dir)
            &&& left.packages == right.packages
            &&& left.profile_target_dir == right.profile_target_dir
            &&& left.cargo_profile_args == right.cargo_profile_args
            &&& left.extra_env == right.extra_env
            &&& left.inherited_env == right.inherited_env
            &&& left.additional_inputs.len() == right.additional_inputs.len()
            &&& forall|i: int|
                #![trigger left.additional_inputs[i]]
                0 <= i < left.additional_inputs.len() ==> components(left.additional_inputs[i])
                    == components(right.additional_inputs[i])
            &&& left.target == right.target
            &&& left.cargo_program == right.cargo_program
            &&& left.rustc_program == right.rustc_program
            &&& left.cache_mode is SharedIncremental <==> right.cache_mode is SharedIncremental
            &&& left.cache_mode is SharedIncremental ==> components(
                left.cache_mode->SharedIncremental_0,
            ) == components(right.cache_mode->SharedIncremental_0)
            &&& left.prune_policy == right.prune_policy
            &&& left.prune_interval == right.prune_interval
            &&& left.shared_incremental_maintenance == right.shared_incremental_maintenance
        },
{
}

/// The kept resolution that serves a build is the first one of its specification.
pub proof fn lemma_first_snapshot_serves(
    snapshots: Seq<InputSnapshot>,
    spec: WasmBuildSpecView,
    from: int,
)
    requires
        0 <= from <= snapshots.len(),
    ensures
        match snapshot_index(snapshots, spec, from) {
            Some(at) => {
                &&& from <= at < snapshots.len()
                &&& same_spec(snapshots[at].spec@, spec)
                &&& forall|i: int|
                    from <= i < at ==> !same_spec((#[trigger] snapshots[i]).spec@, spec)
            },
            None => forall|i: int|
                from <= i < snapshots.len() ==> !same_spec((#[trigger] snapshots[i]).spec@, spec),
        },
    decreases snapshots.len() - from,
{
    if from < snapshots.len() && !same_spec(snapshots[from].spec@, spec) {
        lemma_first_snapshot_serves(snapshots, spec, from + 1);
    }
}

/// A session counts each build that it serves once.
pub proof fn lemma_served_builds_are_counted(
    snapshots: Seq<InputSnapshot>,
    specs: Seq<WasmBuildSpec>,
    upto: int,
)
    requires
        0 <= upto <= specs.len(),
    ensures
        found_count(snapshots, specs, upto) == plain_sum(
            specs.take(upto).map_values(
                |spec: WasmBuildSpec|
                    if snapshot_index(snapshots, spec@, 0) is Some {
                        1int
                    } else {
                        0int
                    },
            ),
        ),
    decreases upto,
{
    let count = |spec: WasmBuildSpec|
        if snapshot_index(snapshots, spec@, 0) is Some {
            1int
        } else {
            0int
        };
    if upto > 0 {
        lemma_served_builds_are_counted(snapshots, specs, upto - 1);
        assert(specs.take(upto).map_values(count).drop_last() =~= specs.take(upto - 1).map_values(
            count,
        ));
        assert(specs.take(upto).map_values(count).last() == count(specs[upto - 1]));
    } else {
        assert(specs.take(0).map_values(count) =~= Seq::<int>::empty());
    }
}

/// The members of a group are the builds that were put into it, in order.
pub proof fn lemma_members_of_groups(group_by_index: Seq<usize>, group: int, upto: int)
    requires
        0 <= upto <= group_by_index.len(),
    ensures
        forall|i: int| #[trigger]
            members_of(group_by_index, group, upto).contains(i) <==> 0 <= i < upto
                && group_by_index[i] == group,
        forall|a: int, b: int|
            #![trigger members_of(group_by_index, group, upto)[a], members_of(group_by_index, group, upto)[b]]
            0 <= a < b < members_of(group_by_index, group, upto).len() ==> members_of(
                group_by_index,
                group,
                upto,
            )[a] < members_of(group_by_index, group, upto)[b],
    decreases upto,
{
    let all = members_of(group_by_index, group, upto);
    if upto > 0 {
        let before = members_of(group_by_index, group, upto - 1);
        lemma_members_of_groups(group_by_index, group, upto - 1);
        assert forall|i: int| #[trigger] all.contains(i) <==> 0 <= i < upto && group_by_index[i]
            == group by {
            if before.contains(i) {
                let k = before.index_of(i);
                assert(all[k] == i);
            }
            if all.contains(i) {
                let k = all.index_of(i);
                if k < before.len() {
                    assert(before[k] == i);
                    assert(before.contains(i));
                }
            }
            if i == upto - 1 && group_by_index[i] == group {
                assert(all[before.len() as int] == i);
            }
        }
        assert forall|a: int, b: int|
            #![trigger all[a], all[b]]
            0 <= a < b < all.len() implies all[a] < all[b] by {
            assert(all[a] == before[a]);
            assert(before.contains(before[a]));
            if b < before.len() {
                assert(all[b] == before[b]);
            }
        }
    }
}

/// One build bears the time of a pass: the one that asked for it where the pass reached it, else
/// the first one that it reached.
pub proof fn lemma_one_build_bears_the_time(entries: Seq<GroupEntry>, active: int)
    ensures
        (exists|k: int| 0 <= k < entries.len() && (#[trigger] entries[k]).index == active)
            ==> timed_index(entries, active) == active,
        entries.len() > 0 && (forall|k: int|
            0 <= k < entries.len() ==> (#[trigger] entries[k]).index != active) ==> timed_index(
            entries,
            active,
        ) == entries[0].index,
{
}

/// A shared target is cleared exactly when it was used longer ago than its age limit, or holds
/// more than its size limit; without limits it is kept.
pub proof fn lemma_targets_are_cleared_beyond_limits(
    policy: SharedIncrementalTargetPrunePolicy,
    now: int,
    last_used: int,
    size: u64,
)
    ensures
        must_clear(policy, now, last_used, size) <==> {
            ||| policy.max_age matches Some(limit) && now - last_used > limit@
            ||| policy.max_size_bytes matches Some(limit) && size > limit
        },
{
}

/// Clearing a shared target removes every child but the two that coordinate it.
pub proof fn lemma_all_but_coordination_is_cleared(names: Seq<Seq<u8>>, at: int)
    requires
        0 <= at < names.len(),
    ensures
        cleared_children(names).contains(names[at]) <==> names[at] != encode_utf8(".ic-testkit"@)
            && names[at] != encode_utf8("CACHEDIR.TAG"@),
        forall|k: int|
            0 <= k < cleared_children(names).len() ==> names.contains(
                #[trigger] cleared_children(names)[k],
            ),
{
    let keep = |name: Seq<u8>| !super::shared::is_coordination_child(name);
    let some = names.filter(keep);
    assert(some == cleared_children(names));
    if keep(names[at]) {
        names.lemma_filter_contains(keep, at);
    } else if some.contains(names[at]) {
        let k = some.index_of(names[at]);
        names.lemma_filter_pred(keep, k);
    }
    assert forall|k: int| 0 <= k < some.len() implies names.contains(#[trigger] some[k]) by {
        assert(some.contains(some[k]));
        names.lemma_filter_contains_rev(keep, some[k]);
    }
}

/// The length of an optional time, nothing for none.
pub open spec fn length_of(time: Option<Duration>) -> int {
    match time {
        Some(spent) => spent@ as int,
        None => 0,
    }
}

/// All the time that a failure accounts for, phase by phase.
pub open spec fn accounted(timings: WasmBuildFailureTimings) -> int {
    timings.exact_cache_coordination@ + timings.input_resolution.tool_identity@
        + timings.input_resolution.cargo_metadata@ + timings.input_resolution.input_discovery@
        + timings.input_resolution.content_hashing@ + length_of(timings.shared_target_coordination)
        + length_of(timings.shared_target_maintenance) + length_of(timings.cargo_build) + length_of(
        timings.artifact_publication,
    ) + length_of(timings.exact_cache_maintenance) + length_of(timings.cleanup)
}

/// A phase adds its own time to what a failure accounts for, and to nothing else; the wall time
/// stays as it is.
pub proof fn lemma_phases_account_for_their_time(
    before: WasmBuildFailureTimings,
    phase: WasmBuildFailurePhase,
    elapsed: Duration,
    after: WasmBuildFailureTimings,
)
    requires
        phase_recorded(before, phase, elapsed, after),
        accounted(before) + before.input_resolution.total@ + elapsed@
            <= 18_446_744_073_709_551_615_999_999_999,
    ensures
        accounted(after) == accounted(before) + if phase is Specification {
            0
        } else {
            elapsed@ as int
        },
        after.total == before.total,
        phase is CargoBuild ==> length_of(after.cargo_build) == length_of(before.cargo_build)
            + elapsed@,
        phase is ArtifactPublication ==> length_of(after.artifact_publication) == length_of(
            before.artifact_publication,
        ) + elapsed@,
        phase is Cleanup ==> length_of(after.cleanup) == length_of(before.cleanup) + elapsed@,
        phase is ExactCacheMaintenance ==> length_of(after.exact_cache_maintenance) == length_of(
            before.exact_cache_maintenance,
        ) + elapsed@,
        phase is SharedTargetMaintenance ==> length_of(after.shared_target_maintenance)
            == length_of(before.shared_target_maintenance) + elapsed@,
        phase is SharedTargetCoordination ==> length_of(after.shared_target_coordination)
            == length_of(before.shared_target_coordination) + elapsed@,
        phase is ExactCacheCoordination ==> after.exact_cache_coordination@
            == before.exact_cache_coordination@ + elapsed@,
        phase is ToolIdentity ==> after.input_resolution.tool_identity@
            == before.input_resolution.tool_identity@ + elapsed@,
        phase is CargoMetadata ==> after.input_resolution.cargo_metadata@
            == before.input_resolution.cargo_metadata@ + elapsed@,
        phase is InputDiscovery ==> after.input_resolution.input_discovery@
            == before.input_resolution.input_discovery@ + elapsed@,
        phase is ContentHashing ==> after.input_resolution.content_hashing@
            == before.input_resolution.content_hashing@ + elapsed@,
        after.input_resolution.total@ == before.input_resolution.total@ + if phase is ToolIdentity
            || phase is CargoMetadata || phase is InputDiscovery || phase is ContentHashing {
            elapsed@ as int
        } else {
            0
        },
{
}

/// A failure is attributed to the phase in which it arose, whether that was observed or is told
/// by the error alone.
pub proof fn lemma_failures_are_attributed(error: WasmBuildError)
    ensures
        error is InvalidSpec ==> unobserved_phase(error) is Specification,
        error is InvalidMetadata ==> unobserved_phase(error) is CargoMetadata,
        error is InvalidCargoConfiguration ==> unobserved_phase(error) is InputDiscovery,
        error is MissingArtifacts ==> unobserved_phase(error) is ArtifactPublication,
        error is InputsChangedDuringBuild ==> unobserved_phase(error) is ContentHashing,
        error is PreparedInputSnapshotInvalidated ==> unobserved_phase(error)
            is ArtifactPublication,
        error is FailedBuildCleanup ==> unobserved_phase(error) is Cleanup,
        error is Io ==> unobserved_phase(error) is ExactCacheCoordination,
        error matches WasmBuildError::CommandFailed { phase, .. } ==> unobserved_phase(error)
            == match phase {
            WasmBuildPhase::CargoIdentity => failure_phase_of(
                WasmBuildProgressPhase::CargoIdentity,
            ),
            WasmBuildPhase::RustcIdentity => failure_phase_of(
                WasmBuildProgressPhase::RustcIdentity,
            ),
            WasmBuildPhase::CargoMetadata => failure_phase_of(
                WasmBuildProgressPhase::CargoMetadata,
            ),
            WasmBuildPhase::CargoBuild => failure_phase_of(WasmBuildProgressPhase::CargoBuild),
        },
        error matches WasmBuildError::CommandSpawn { phase, .. } ==> unobserved_phase(error)
            == match phase {
            WasmBuildPhase::CargoIdentity => WasmBuildFailurePhase::ToolIdentity,
            WasmBuildPhase::RustcIdentity => WasmBuildFailurePhase::ToolIdentity,
            WasmBuildPhase::CargoMetadata => WasmBuildFailurePhase::CargoMetadata,
            WasmBuildPhase::CargoBuild => WasmBuildFailurePhase::CargoBuild,
        },
        failure_phase_of(WasmBuildProgressPhase::ExactCacheLock) is ExactCacheCoordination,
        failure_phase_of(WasmBuildProgressPhase::CargoIdentity) is ToolIdentity,
        failure_phase_of(WasmBuildProgressPhase::RustcIdentity) is ToolIdentity,
        failure_phase_of(WasmBuildProgressPhase::CargoMetadata) is CargoMetadata,
        failure_phase_of(WasmBuildProgressPhase::InputDiscovery) is InputDiscovery,
        failure_phase_of(WasmBuildProgressPhase::ContentHashing) is ContentHashing,
        failure_phase_of(WasmBuildProgressPhase::SharedTargetLock) is SharedTargetCoordination,
        failure_phase_of(WasmBuildProgressPhase::SharedTargetMaintenance)
            is SharedTargetMaintenance,
        failure_phase_of(WasmBuildProgressPhase::CargoBuild) is CargoBuild,
        failure_phase_of(WasmBuildProgressPhase::ArtifactPublication) is ArtifactPublication,
        failure_phase_of(WasmBuildProgressPhase::ExactCacheMaintenance) is ExactCacheMaintenance,
{
}

/// The entries of a target directory lie below it, each under the hexadecimal text of its
/// fingerprint; and a file beside an artifact has its name with the suffix behind it.
pub proof fn lemma_places_of_builds(
    target_dir: Seq<u8>,
    fingerprint: Seq<u8>,
    artifact: Seq<u8>,
    suffix: Seq<char>,
)
    ensures
        cache_entry_path(target_dir, fingerprint) == joined(
            joined(target_dir, encode_utf8(".ic-testkit/wasm-targets"@)),
            encode_utf8(hex(fingerprint)),
        ),
        file_name_of(artifact) is Some && components(artifact).len() > 1 && has_no_slash(
            encode_utf8(suffix),
        ) && encode_utf8(suffix).len() > 0 && has_no_slash(components(artifact).last())
            ==> components(beside(artifact, suffix)) == components(artifact).drop_last().push(
            components(artifact).last() + encode_utf8(suffix),
        ),
{
    if file_name_of(artifact) is Some && components(artifact).len() > 1 && has_no_slash(
        encode_utf8(suffix),
    ) && encode_utf8(suffix).len() > 0 && has_no_slash(components(artifact).last()) {
        let name = components(artifact).last() + encode_utf8(suffix);
        lemma_file_names(artifact, name);
        lemma_spans(artifact);
        let at = components(artifact).len() - 1;
        assert(components(artifact)[at].len() > 0);
        assert(name.len() > 1);
        assert forall|i: int| 0 <= i < name.len() implies #[trigger] name[i] != 47 by {
            let head = components(artifact).last();
            if i < head.len() {
                assert(name[i] == head[i]);
            } else {
                assert(name[i] == encode_utf8(suffix)[i - head.len()]);
            }
        }
    }
}

} // verus!

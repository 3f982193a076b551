//! Input resolution shared by the builds of a batch, and snapshots kept across batches.

use vstd::prelude::*;
use vstd::string::*;
use super::error::WasmBuildError;
use super::identity::{
    effective_environment, environment_of, fingerprint_fields, metadata_arguments,
    resolution_arguments, spec_violation, validate_spec,
};
use super::inputs::{
    build_inputs_view, finish_resolution, same_resolution, DigestedInputs, ResolvedCargoBuildInputs,
};
use super::progress::{is_zero_resolution, resolution_sum, WasmInputResolutionTimings};
use super::spec::{
    effective_rustc, CacheModeView, WasmBuildCacheMode, WasmBuildSpec, WasmBuildSpecView,
    CACHE_FORMAT_VERSION,
};
use crate::digest::digest_of;
use crate::order::bytes_equal;
use crate::paths::{components, paths_equal, same_path};
use crate::settings::{copy_bytes, settings_view, Setting, SettingView};
use crate::text::{text_equal, texts};
use crate::tree::{byte_strings, labeled_views};

verus! {

/// What two builds must share for one resolution pass to serve both.
#[derive(Debug)]
pub struct BatchResolutionKey {
    /// Directory in which Cargo runs.
    pub workspace_root: Vec<u8>,
    /// Cargo executable.
    pub cargo_program: Vec<u8>,
    /// Rust compiler executable.
    pub rustc_program: Vec<u8>,
    /// Arguments that steer the resolution of the package graph.
    pub metadata_arguments: Vec<Vec<u8>>,
    /// Environment that identifies the build.
    pub environment: Vec<Setting>,
}

/// What a resolution key says, with the directory as its components.
pub struct KeyView {
    /// Components of the directory in which Cargo runs.
    pub workspace_root: Seq<Seq<u8>>,
    /// Cargo executable.
    pub cargo_program: Seq<u8>,
    /// Rust compiler executable.
    pub rustc_program: Seq<u8>,
    /// Arguments that steer the resolution of the package graph.
    pub metadata_arguments: Seq<Seq<u8>>,
    /// Environment that identifies the build.
    pub environment: Seq<SettingView>,
}

impl View for BatchResolutionKey {
    type V = KeyView;

    open spec fn view(&self) -> KeyView {
        KeyView {
            workspace_root: components(self.workspace_root@),
            cargo_program: self.cargo_program@,
            rustc_program: self.rustc_program@,
            metadata_arguments: byte_strings(self.metadata_arguments@),
            environment: settings_view(self.environment@),
        }
    }
}

/// The resolution key of a build.
pub open spec fn key_of(spec: WasmBuildSpecView, ambient: Seq<SettingView>) -> KeyView {
    KeyView {
        workspace_root: components(spec.workspace_root),
        cargo_program: spec.cargo_program,
        rustc_program: effective_rustc(spec),
        metadata_arguments: resolution_arguments(spec.cargo_profile_args),
        environment: environment_of(spec, ambient),
    }
}

/// Views of a list of resolution keys.
pub open spec fn keys_view(keys: Seq<BatchResolutionKey>) -> Seq<KeyView> {
    keys.map_values(|key: BatchResolutionKey| key@)
}

fn strings_equal(left: &Vec<Vec<u8>>, right: &Vec<Vec<u8>>) -> (equal: bool)
    ensures
        equal == (byte_strings(left@) == byte_strings(right@)),
{
    let ghost (a, b) = (byte_strings(left@), byte_strings(right@));
    if left.len() != right.len() {
        assert(a.len() != b.len());
        return false;
    }
    let mut at: usize = 0;
    while at < left.len()
        invariant
            at <= left@.len(),
            left@.len() == right@.len(),
            a == byte_strings(left@),
            b == byte_strings(right@),
            forall|i: int| 0 <= i < at ==> a[i] == b[i],
        decreases left.len() - at,
    {
        if !bytes_equal(left[at].as_slice(), right[at].as_slice()) {
            assert(a[at as int] != b[at as int]);
            return false;
        }
        at = at + 1;
    }
    assert(a =~= b);
    true
}

fn paths_all_equal(left: &Vec<Vec<u8>>, right: &Vec<Vec<u8>>) -> (equal: bool)
    ensures
        equal == (byte_strings(left@).len() == byte_strings(right@).len() && forall|i: int|
            0 <= i < left@.len() ==> same_path(
                #[trigger] byte_strings(left@)[i],
                byte_strings(right@)[i],
            )),
{
    if left.len() != right.len() {
        return false;
    }
    let mut at: usize = 0;
    while at < left.len()
        invariant
            at <= left@.len(),
            left@.len() == right@.len(),
            forall|i: int|
                0 <= i < at ==> same_path(
                    #[trigger] byte_strings(left@)[i],
                    byte_strings(right@)[i],
                ),
        decreases left.len() - at,
    {
        if !paths_equal(left[at].as_slice(), right[at].as_slice()) {
            assert(!same_path(byte_strings(left@)[at as int], byte_strings(right@)[at as int]));
            return false;
        }
        at = at + 1;
    }
    true
}

fn settings_equal(left: &Vec<Setting>, right: &Vec<Setting>) -> (equal: bool)
    ensures
        equal == (settings_view(left@) == settings_view(right@)),
{
    let ghost (a, b) = (settings_view(left@), settings_view(right@));
    if left.len() != right.len() {
        assert(a.len() != b.len());
        return false;
    }
    let mut at: usize = 0;
    while at < left.len()
        invariant
            at <= left@.len(),
            left@.len() == right@.len(),
            a == settings_view(left@),
            b == settings_view(right@),
            forall|i: int| 0 <= i < at ==> a[i] == b[i],
        decreases left.len() - at,
    {
        assert(a[at as int] == left@[at as int]@ && b[at as int] == right@[at as int]@);
        let same_value = match (&left[at].value, &right[at].value) {
            (Some(x), Some(y)) => bytes_equal(x.as_slice(), y.as_slice()),
            (None, None) => true,
            _ => false,
        };
        if !same_value || !bytes_equal(left[at].name.as_slice(), right[at].name.as_slice()) {
            assert(a[at as int] != b[at as int]);
            return false;
        }
        at = at + 1;
    }
    assert(a =~= b);
    true
}

impl BatchResolutionKey {
    /// The resolution key of a build in the given ambient environment.
    pub fn for_spec(spec: &WasmBuildSpec, ambient: &Vec<Setting>) -> (key: Self)
        ensures
            key@ == key_of(spec@, settings_view(ambient@)),
    {
        BatchResolutionKey {
            workspace_root: copy_bytes(spec.workspace_root()),
            cargo_program: copy_bytes(spec.cargo_program()),
            rustc_program: spec.effective_rustc_program(),
            metadata_arguments: metadata_arguments(spec.cargo_profile_args()),
            environment: effective_environment(spec, ambient),
        }
    }

    /// Whether one resolution pass serves both builds.
    pub fn same_as(&self, other: &Self) -> (same: bool)
        ensures
            same == (self@ == other@),
    {
        paths_equal(self.workspace_root.as_slice(), other.workspace_root.as_slice())
            && bytes_equal(self.cargo_program.as_slice(), other.cargo_program.as_slice())
            && bytes_equal(self.rustc_program.as_slice(), other.rustc_program.as_slice())
            && strings_equal(&self.metadata_arguments, &other.metadata_arguments)
            && settings_equal(&self.environment, &other.environment)
    }
}

/// Whether two builds are described alike; paths are compared component by component.
pub open spec fn same_spec(left: WasmBuildSpecView, right: WasmBuildSpecView) -> bool {
    &&& same_path(left.workspace_root, right.workspace_root)
    &&& same_path(left.target_dir, right.target_dir)
    &&& left.packages == right.packages
    &&& left.profile_target_dir == right.profile_target_dir
    &&& left.cargo_profile_args == right.cargo_profile_args
    &&& left.extra_env == right.extra_env
    &&& left.inherited_env == right.inherited_env
    &&& left.additional_inputs.len() == right.additional_inputs.len()
    &&& forall|i: int|
        0 <= i < left.additional_inputs.len() ==> same_path(
            #[trigger] left.additional_inputs[i],
            right.additional_inputs[i],
        )
    &&& left.target == right.target
    &&& left.cargo_program == right.cargo_program
    &&& left.rustc_program == right.rustc_program
    &&& match (left.cache_mode, right.cache_mode) {
        (CacheModeView::Isolated, CacheModeView::Isolated) => true,
        (CacheModeView::SharedIncremental(a), CacheModeView::SharedIncremental(b)) => same_path(
            a,
            b,
        ),
        _ => false,
    }
    &&& left.prune_policy == right.prune_policy
    &&& left.prune_interval == right.prune_interval
    &&& left.shared_incremental_maintenance == right.shared_incremental_maintenance
}

fn all_texts_equal(left: &Vec<String>, right: &Vec<String>) -> (equal: bool)
    ensures
        equal == (texts(left@) == texts(right@)),
{
    let ghost (a, b) = (texts(left@), texts(right@));
    if left.len() != right.len() {
        assert(a.len() != b.len());
        return false;
    }
    let mut at: usize = 0;
    while at < left.len()
        invariant
            at <= left@.len(),
            left@.len() == right@.len(),
            a == texts(left@),
            b == texts(right@),
            forall|i: int| 0 <= i < at ==> a[i] == b[i],
        decreases left.len() - at,
    {
        if !text_equal(left[at].as_str(), right[at].as_str()) {
            assert(a[at as int] != b[at as int]);
            return false;
        }
        at = at + 1;
    }
    assert(a =~= b);
    true
}

/// Whether two builds are described alike.
pub fn specs_equal(left: &WasmBuildSpec, right: &WasmBuildSpec) -> (equal: bool)
    ensures
        equal == same_spec(left@, right@),
{
    let same_mode = match (left.cache_mode(), right.cache_mode()) {
        (WasmBuildCacheMode::Isolated, WasmBuildCacheMode::Isolated) => true,
        (
            WasmBuildCacheMode::SharedIncremental { target_dir: a },
            WasmBuildCacheMode::SharedIncremental { target_dir: b },
        ) => paths_equal(a.as_slice(), b.as_slice()),
        _ => false,
    };
    same_mode && paths_equal(left.workspace_root(), right.workspace_root()) && paths_equal(
        left.target_dir(),
        right.target_dir(),
    ) && all_texts_equal(left.packages(), right.packages()) && text_equal(
        left.profile_target_dir(),
        right.profile_target_dir(),
    ) && strings_equal(left.cargo_profile_args(), right.cargo_profile_args()) && settings_equal(
        left.extra_env(),
        right.extra_env(),
    ) && settings_equal(left.inherited_env(), right.inherited_env()) && paths_all_equal(
        left.additional_inputs(),
        right.additional_inputs(),
    ) && text_equal(left.target(), right.target()) && bytes_equal(
        left.cargo_program(),
        right.cargo_program(),
    ) && bytes_equal(left.rustc_program(), right.rustc_program()) && left.prune_policy()
        == right.prune_policy() && left.prune_interval() == right.prune_interval()
        && left.shared_incremental_target_maintenance()
        == right.shared_incremental_target_maintenance()
}

/// Builds grouped by their resolution keys.
#[derive(Debug)]
pub struct ResolutionGroups {
    /// For each group, the builds that belong to it, in order.
    pub groups: Vec<Vec<usize>>,
    /// For each build, its group.
    pub group_by_index: Vec<usize>,
}

/// Whether grouping follows the keys: builds share a group exactly when their keys are equal, and
/// a group lists its builds in order.
pub open spec fn is_grouping(grouping: ResolutionGroups, keys: Seq<KeyView>) -> bool {
    &&& grouping.group_by_index@.len() == keys.len()
    &&& forall|i: int|
        0 <= i < keys.len() ==> (#[trigger] grouping.group_by_index@[i]) < grouping.groups@.len()
    &&& forall|i: int, j: int|
        #![trigger grouping.group_by_index@[i], grouping.group_by_index@[j]]
        0 <= i < keys.len() && 0 <= j < keys.len() ==> (grouping.group_by_index@[i]
            == grouping.group_by_index@[j]) == (keys[i] == keys[j])
    &&& forall|g: int|
        0 <= g < grouping.groups@.len() ==> #[trigger] members_of(
            grouping.group_by_index@,
            g,
            keys.len() as int,
        ) == grouping.groups@[g]@.map_values(|index: usize| index as int)
}

/// The builds among the first `upto` that belong to group `group`, in order.
pub open spec fn members_of(group_by_index: Seq<usize>, group: int, upto: int) -> Seq<int>
    decreases upto,
{
    if upto <= 0 || upto > group_by_index.len() {
        seq![]
    } else if group_by_index[upto - 1] == group {
        members_of(group_by_index, group, upto - 1).push(upto - 1)
    } else {
        members_of(group_by_index, group, upto - 1)
    }
}

proof fn lemma_members_extend(group_by_index: Seq<usize>, added: usize, group: int, upto: int)
    requires
        0 <= upto <= group_by_index.len(),
    ensures
        members_of(group_by_index.push(added), group, upto) == members_of(
            group_by_index,
            group,
            upto,
        ),
    decreases upto,
{
    if upto > 0 {
        lemma_members_extend(group_by_index, added, group, upto - 1);
    }
}

proof fn lemma_no_members(group_by_index: Seq<usize>, group: int, upto: int)
    requires
        0 <= upto <= group_by_index.len(),
        forall|i: int| 0 <= i < group_by_index.len() ==> #[trigger] group_by_index[i] != group,
    ensures
        members_of(group_by_index, group, upto) == Seq::<int>::empty(),
    decreases upto,
{
    if upto > 0 {
        lemma_no_members(group_by_index, group, upto - 1);
    }
}

/// Group builds by their resolution keys.
pub fn group_builds(keys: &Vec<BatchResolutionKey>) -> (grouping: ResolutionGroups)
    ensures
        is_grouping(grouping, keys_view(keys@)),
{
    let ghost all = keys_view(keys@);
    let mut groups: Vec<Vec<usize>> = Vec::new();
    let mut representatives: Vec<usize> = Vec::new();
    let mut group_by_index: Vec<usize> = Vec::new();
    let mut at: usize = 0;
    while at < keys.len()
        invariant
            at <= keys@.len(),
            all == keys_view(keys@),
            group_by_index@.len() == at,
            groups@.len() == representatives@.len(),
            groups@.len() <= at,
            forall|g: int|
                0 <= g < groups@.len() ==> (#[trigger] representatives@[g]) < at
                    && group_by_index@[representatives@[g] as int] == g,
            forall|i: int| 0 <= i < at ==> (#[trigger] group_by_index@[i]) < groups@.len(),
            forall|i: int|
                0 <= i < at ==> all[i] == all[representatives@[(
                #[trigger] group_by_index@[i]) as int] as int],
            forall|g: int, h: int|
                #![trigger representatives@[g], representatives@[h]]
                0 <= g < h < groups@.len() ==> all[representatives@[g] as int]
                    != all[representatives@[h] as int],
            forall|g: int|
                0 <= g < groups@.len() ==> #[trigger] members_of(group_by_index@, g, at as int)
                    == groups@[g]@.map_values(|index: usize| index as int),
        decreases keys.len() - at,
    {
        let mut group: usize = 0;
        while group < representatives.len() && !keys[representatives[group]].same_as(&keys[at])
            invariant
                group <= representatives@.len(),
                at < keys@.len(),
                all == keys_view(keys@),
                forall|g: int|
                    0 <= g < representatives@.len() ==> (#[trigger] representatives@[g]) < at,
                forall|g: int|
                    0 <= g < group ==> all[(#[trigger] representatives@[g]) as int]
                        != all[at as int],
            decreases representatives.len() - group,
        {
            assert(all[representatives@[group as int] as int]
                == keys@[representatives@[group as int] as int]@);
            assert(all[at as int] == keys@[at as int]@);
            group = group + 1;
        }
        let ghost old_groups = groups@;
        let ghost old_index = group_by_index@;
        let ghost old_representatives = representatives@;
        proof {
            if group < representatives@.len() {
                assert(all[representatives@[group as int] as int]
                    == keys@[representatives@[group as int] as int]@);
                assert(all[at as int] == keys@[at as int]@);
            }
        }
        if group == representatives.len() {
            representatives.push(at);
            groups.push(Vec::new());
            proof {
                lemma_no_members(old_index, group as int, at as int);
                assert(groups@[group as int]@.map_values(|index: usize| index as int)
                    =~= Seq::<int>::empty());
            }
        }
        let ghost middle_groups = groups@;
        let mut members = groups.remove(group);
        let ghost before = members@;
        members.push(at);
        groups.insert(group, members);
        group_by_index.push(group);
        proof {
            assert(groups@ =~= middle_groups.update(group as int, members));
            assert forall|g: int| 0 <= g < groups@.len() implies #[trigger] members_of(
                group_by_index@,
                g,
                at + 1,
            ) == groups@[g]@.map_values(|index: usize| index as int) by {
                lemma_members_extend(old_index, group, g, at as int);
                assert(members_of(group_by_index@, g, at as int) == members_of(
                    old_index,
                    g,
                    at as int,
                ));
                if g == group {
                    assert(before.push(at).map_values(|index: usize| index as int)
                        =~= before.map_values(|index: usize| index as int).push(at as int));
                } else {
                    assert(groups@[g] == old_groups[g]);
                }
            }
            assert forall|i: int| 0 <= i < at + 1 implies all[i] == all[representatives@[(
            #[trigger] group_by_index@[i]) as int] as int] by {
                if i < at {
                    assert(group_by_index@[i] == old_index[i]);
                    assert(representatives@[old_index[i] as int]
                        == old_representatives[old_index[i] as int]);
                }
            }
            assert forall|g: int| 0 <= g < groups@.len() implies (#[trigger] representatives@[g])
                < at + 1 && group_by_index@[representatives@[g] as int] == g by {
                if g < old_groups.len() {
                    assert(representatives@[g] == old_representatives[g]);
                    assert(old_index[old_representatives[g] as int] == g);
                }
            }
            assert forall|g: int, h: int| #![trigger representatives@[g], representatives@[h]] 0
                <= g < h < groups@.len() implies all[representatives@[g] as int]
                != all[representatives@[h] as int] by {
                if h < old_groups.len() {
                    assert(representatives@[g] == old_representatives[g]);
                    assert(representatives@[h] == old_representatives[h]);
                } else {
                    assert(representatives@[g] == old_representatives[g]);
                }
            }
        }
        at = at + 1;
    }
    proof {
        assert forall|i: int, j: int|
            #![trigger group_by_index@[i], group_by_index@[j]]
            0 <= i < all.len() && 0 <= j < all.len() implies (group_by_index@[i]
            == group_by_index@[j]) == (all[i] == all[j]) by {
            let (g, h) = (group_by_index@[i] as int, group_by_index@[j] as int);
            assert(all[i] == all[representatives@[g] as int]);
            assert(all[j] == all[representatives@[h] as int]);
        }
    }
    ResolutionGroups { groups, group_by_index }
}

/// Counts of resolution passes and of resolutions that were reused.
#[derive(Clone, Copy, Debug, PartialEq, Eq, Structural)]
pub struct WasmBuildBatchInputMetrics {
    /// Resolution passes that ran.
    pub runs: usize,
    /// Builds that shared the pass of another build.
    pub reuses: usize,
    /// Builds served by a session snapshot.
    pub session_reuses: usize,
    /// Builds served by a prepared snapshot.
    pub prepared_reuses: usize,
}

impl Default for WasmBuildBatchInputMetrics {
    fn default() -> (metrics: Self)
        ensures
            metrics == (WasmBuildBatchInputMetrics {
                runs: 0,
                reuses: 0,
                session_reuses: 0,
                prepared_reuses: 0,
            }),
    {
        WasmBuildBatchInputMetrics { runs: 0, reuses: 0, session_reuses: 0, prepared_reuses: 0 }
    }
}

/// A resolution kept under the specification that it belongs to.
#[derive(Debug)]
pub struct InputSnapshot {
    /// The specification.
    pub spec: WasmBuildSpec,
    /// Its resolution, without the time it took.
    pub resolved: ResolvedCargoBuildInputs,
}

/// Position of the first snapshot of a specification, from `from` on.
pub open spec fn snapshot_index(
    snapshots: Seq<InputSnapshot>,
    spec: WasmBuildSpecView,
    from: int,
) -> Option<int>
    decreases snapshots.len() - from,
{
    if from < 0 || from >= snapshots.len() {
        None
    } else if same_spec(snapshots[from].spec@, spec) {
        Some(from)
    } else {
        snapshot_index(snapshots, spec, from + 1)
    }
}

fn find_snapshot(snapshots: &Vec<InputSnapshot>, spec: &WasmBuildSpec) -> (found: Option<usize>)
    ensures
        match (found, snapshot_index(snapshots@, spec@, 0)) {
            (Some(at), Some(expected)) => at == expected && at < snapshots@.len(),
            (None, None) => true,
            _ => false,
        },
{
    let mut at: usize = 0;
    while at < snapshots.len()
        invariant
            at <= snapshots@.len(),
            snapshot_index(snapshots@, spec@, 0) == snapshot_index(
                snapshots@,
                spec@,
                at as int,
            ),
        decreases snapshots.len() - at,
    {
        if specs_equal(&snapshots[at].spec, spec) {
            return Some(at);
        }
        at = at + 1;
    }
    None
}

/// A number with one added, held at the largest representable one.
pub open spec fn counted(count: usize) -> usize {
    if count < usize::MAX {
        (count + 1) as usize
    } else {
        usize::MAX
    }
}

/// A number with `more` added, held at the largest representable one.
pub open spec fn grown(count: usize, more: nat) -> usize {
    if count + more <= usize::MAX {
        (count + more) as usize
    } else {
        usize::MAX
    }
}

/// How many of the first `upto` builds have a snapshot.
pub open spec fn found_count(
    snapshots: Seq<InputSnapshot>,
    specs: Seq<WasmBuildSpec>,
    upto: int,
) -> nat
    decreases upto,
{
    if upto <= 0 {
        0
    } else {
        found_count(snapshots, specs, upto - 1) + if snapshot_index(
            snapshots,
            specs[upto - 1]@,
            0,
        ) is Some {
            1nat
        } else {
            0nat
        }
    }
}

/// Resolutions kept by one caller across batches, as long as its sources do not change.
#[derive(Debug)]
pub struct WasmBuildSessionState {
    /// Kept resolutions.
    pub snapshots: Vec<InputSnapshot>,
    /// How often a kept resolution was reused.
    pub snapshot_reuses: usize,
    /// Whether a change of the sources was detected.
    pub invalidated: bool,
}

impl WasmBuildSessionState {
    /// A session that has kept nothing yet.
    pub fn new() -> (session: Self)
        ensures
            session.snapshots@.len() == 0,
            session.snapshot_reuses == 0,
            !session.invalidated,
    {
        WasmBuildSessionState { snapshots: Vec::new(), snapshot_reuses: 0, invalidated: false }
    }

    /// Number of kept resolutions.
    pub fn snapshot_count(&self) -> (count: usize)
        ensures
            count == self.snapshots@.len(),
    {
        self.snapshots.len()
    }

    /// How often a kept resolution was reused.
    pub fn snapshot_reuses(&self) -> (count: usize)
        ensures
            count == self.snapshot_reuses,
    {
        self.snapshot_reuses
    }

    /// Whether a change of the sources was detected.
    pub fn is_invalidated(&self) -> (invalidated: bool)
        ensures
            invalidated == self.invalidated,
    {
        self.invalidated
    }

    /// The kept resolution of a specification, without the time it took.
    pub fn reuse(&mut self, spec: &WasmBuildSpec) -> (resolved: Option<ResolvedCargoBuildInputs>)
        ensures
            final(self).snapshots == old(self).snapshots,
            final(self).invalidated == old(self).invalidated,
            match snapshot_index(old(self).snapshots@, spec@, 0) {
                None => resolved is None && final(self).snapshot_reuses == old(
                    self,
                ).snapshot_reuses,
                Some(at) => {
                    &&& resolved matches Some(found)
                    &&& same_resolution(found, old(self).snapshots@[at].resolved)
                    &&& is_zero_resolution(found.timings)
                    &&& final(self).snapshot_reuses == counted(old(self).snapshot_reuses)
                },
            },
    {
        match find_snapshot(&self.snapshots, spec) {
            None => None,
            Some(at) => {
                self.snapshot_reuses = self.snapshot_reuses.saturating_add(1);
                Some(self.snapshots[at].resolved.without_timings())
            },
        }
    }

    /// Keep the resolution of a specification, unless one is kept already.
    pub fn remember(&mut self, spec: &WasmBuildSpec, resolved: &ResolvedCargoBuildInputs)
        ensures
            final(self).snapshot_reuses == old(self).snapshot_reuses,
            final(self).invalidated == old(self).invalidated,
            match snapshot_index(old(self).snapshots@, spec@, 0) {
                Some(_) => final(self).snapshots@ == old(self).snapshots@,
                None => {
                    &&& final(self).snapshots@.len() == old(self).snapshots@.len() + 1
                    &&& final(self).snapshots@.drop_last() == old(self).snapshots@
                    &&& final(self).snapshots@.last().spec@ == spec@
                    &&& same_resolution(final(self).snapshots@.last().resolved, *resolved)
                    &&& is_zero_resolution(final(self).snapshots@.last().resolved.timings)
                },
            },
    {
        if find_snapshot(&self.snapshots, spec).is_some() {
            return;
        }
        self.snapshots.push(
            InputSnapshot { spec: spec.duplicate(), resolved: resolved.without_timings() },
        );
        assert(self.snapshots@.drop_last() =~= old(self).snapshots@);
    }

    /// Forget everything: the sources have changed.
    pub fn invalidate(&mut self)
        ensures
            final(self).snapshots@.len() == 0,
            final(self).invalidated,
            final(self).snapshot_reuses == old(self).snapshot_reuses,
    {
        self.snapshots = Vec::new();
        self.invalidated = true;
    }
}

/// A session serves what it was told last about a specification that it did not know.
pub proof fn lemma_remembered_is_found(
    snapshots: Seq<InputSnapshot>,
    added: InputSnapshot,
    spec: WasmBuildSpecView,
    from: int,
)
    requires
        0 <= from <= snapshots.len(),
        snapshot_index(snapshots, spec, from) is None,
        same_spec(added.spec@, spec),
    ensures
        snapshot_index(snapshots.push(added), spec, from) == Some(snapshots.len() as int),
    decreases snapshots.len() - from,
{
    if from < snapshots.len() {
        lemma_remembered_is_found(snapshots, added, spec, from + 1);
    }
}

/// Resolutions prepared once and then read by several batches.
#[derive(Debug)]
pub struct WasmBuildInputSnapshotState {
    /// Prepared resolutions, one for each specification.
    pub snapshots: Vec<InputSnapshot>,
    /// Resolution passes of the preparation.
    pub preparation_metrics: WasmBuildBatchInputMetrics,
    /// Time that the preparation took.
    pub preparation_timings: WasmInputResolutionTimings,
}

/// What is found among snapshots is still found once one more is kept.
pub proof fn lemma_found_stays_found(
    snapshots: Seq<InputSnapshot>,
    added: InputSnapshot,
    spec: WasmBuildSpecView,
    from: int,
)
    requires
        0 <= from <= snapshots.len(),
        snapshot_index(snapshots, spec, from) is Some,
    ensures
        snapshot_index(snapshots.push(added), spec, from) == snapshot_index(snapshots, spec, from),
    decreases snapshots.len() - from,
{
    if from < snapshots.len() && !same_spec(snapshots[from].spec@, spec) {
        lemma_found_stays_found(snapshots, added, spec, from + 1);
    }
}

proof fn lemma_same_spec_reflexive(spec: WasmBuildSpecView)
    ensures
        same_spec(spec, spec),
{
}

impl WasmBuildInputSnapshotState {
    /// What holds of every snapshot: the time of a resolution counts as preparation alone.
    pub open spec fn wf(&self) -> bool {
        forall|i: int|
            0 <= i < self.snapshots@.len() ==> is_zero_resolution(
                (#[trigger] self.snapshots@[i]).resolved.timings,
            )
    }

    /// A snapshot for which nothing has been prepared yet.
    pub fn begin() -> (snapshot: Self)
        ensures
            snapshot.wf(),
            snapshot.snapshots@.len() == 0,
            snapshot.preparation_metrics == (WasmBuildBatchInputMetrics {
                runs: 0,
                reuses: 0,
                session_reuses: 0,
                prepared_reuses: 0,
            }),
            is_zero_resolution(snapshot.preparation_timings),
    {
        WasmBuildInputSnapshotState {
            snapshots: Vec::new(),
            preparation_metrics: WasmBuildBatchInputMetrics::default(),
            preparation_timings: WasmInputResolutionTimings::default(),
        }
    }

    /// Keep the resolution of the next specification; its time counts as preparation.
    pub fn prepared(&mut self, spec: &WasmBuildSpec, resolved: &ResolvedCargoBuildInputs)
        requires
            old(self).wf(),
        ensures
            final(self).wf(),
            final(self).preparation_metrics == old(self).preparation_metrics,
            resolution_sum(
                old(self).preparation_timings,
                resolved.timings,
                final(self).preparation_timings,
            ),
            final(self).snapshots@.len() == old(self).snapshots@.len() + 1,
            final(self).snapshots@.drop_last() == old(self).snapshots@,
            final(self).snapshots@.last().spec@ == spec@,
            same_resolution(final(self).snapshots@.last().resolved, *resolved),
            is_zero_resolution(final(self).snapshots@.last().resolved.timings),
            snapshot_index(final(self).snapshots@, spec@, 0) is Some,
    {
        self.preparation_timings.include_timings(resolved.timings);
        self.snapshots.push(
            InputSnapshot { spec: spec.duplicate(), resolved: resolved.without_timings() },
        );
        proof {
            let before = old(self).snapshots@;
            let added = self.snapshots@.last();
            assert(self.snapshots@.drop_last() =~= before);
            assert(self.snapshots@ =~= before.push(added));
            assert forall|i: int| 0 <= i < self.snapshots@.len() implies is_zero_resolution(
                (#[trigger] self.snapshots@[i]).resolved.timings,
            ) by {
                if i < before.len() {
                    assert(self.snapshots@[i] == before[i]);
                }
            }
            lemma_same_spec_reflexive(spec@);
            if snapshot_index(before, spec@, 0) is None {
                lemma_remembered_is_found(before, added, spec@, 0);
            } else {
                lemma_found_stays_found(before, added, spec@, 0);
            }
        }
    }

    /// The snapshot after all its specifications were prepared in these resolution passes.
    pub fn finish(self, preparation_metrics: WasmBuildBatchInputMetrics) -> (snapshot: Self)
        ensures
            snapshot == (WasmBuildInputSnapshotState { preparation_metrics, ..self }),
            self.wf() ==> snapshot.wf(),
    {
        WasmBuildInputSnapshotState { preparation_metrics, ..self }
    }

    /// Whether a specification was prepared.
    pub fn contains(&self, spec: &WasmBuildSpec) -> (found: bool)
        ensures
            found == snapshot_index(self.snapshots@, spec@, 0) is Some,
    {
        find_snapshot(&self.snapshots, spec).is_some()
    }

    /// The prepared resolution of a specification.
    pub fn reuse(&self, spec: &WasmBuildSpec) -> (resolved: Option<ResolvedCargoBuildInputs>)
        ensures
            match snapshot_index(self.snapshots@, spec@, 0) {
                None => resolved is None,
                Some(at) => {
                    &&& resolved matches Some(found)
                    &&& same_resolution(found, self.snapshots@[at].resolved)
                    &&& found.timings == self.snapshots@[at].resolved.timings
                    &&& self.wf() ==> is_zero_resolution(found.timings)
                },
            },
    {
        match find_snapshot(&self.snapshots, spec) {
            None => None,
            Some(at) => Some(self.snapshots[at].resolved.duplicate()),
        }
    }

    /// Number of prepared specifications.
    pub fn specification_count(&self) -> (count: usize)
        ensures
            count == self.snapshots@.len(),
    {
        self.snapshots.len()
    }

    /// Resolution passes of the preparation.
    pub fn preparation_metrics(&self) -> (metrics: WasmBuildBatchInputMetrics)
        ensures
            metrics == self.preparation_metrics,
    {
        self.preparation_metrics
    }

    /// Time that the preparation took.
    pub fn preparation_timings(&self) -> (timings: WasmInputResolutionTimings)
        ensures
            timings == self.preparation_timings,
    {
        self.preparation_timings
    }
}

/// What one resolution pass found out about one build of its group.
#[derive(Debug)]
pub struct GroupEntry {
    /// Index of the build.
    pub index: usize,
    /// What was found out.
    pub digested: DigestedInputs,
}

/// Input resolutions of the builds of one batch.
#[derive(Debug)]
pub struct WasmBuildBatchInputResolver {
    /// How the builds are grouped.
    pub grouping: ResolutionGroups,
    /// Resolutions that are ready to be taken.
    pub resolved: Vec<Option<Result<ResolvedCargoBuildInputs, WasmBuildError>>>,
    /// Counts of resolution passes and reuses.
    pub metrics: WasmBuildBatchInputMetrics,
    /// Whether a session leases the sources to the batch.
    pub in_session: bool,
    /// Whether a prepared snapshot leases the sources to the batch.
    pub prepared: bool,
}

/// Whether one pass reached a build: its entry is among the entries of the pass.
pub open spec fn is_reached(entries: Seq<GroupEntry>, index: int) -> bool {
    exists|k: int| 0 <= k < entries.len() && (#[trigger] entries[k]).index == index
}

/// Which build of a pass bears its time: the one that asked for it, else the first one reached.
pub open spec fn timed_index(entries: Seq<GroupEntry>, active: int) -> int {
    if is_reached(entries, active) || entries.len() == 0 {
        active
    } else {
        entries[0].index as int
    }
}

/// Whether a resolution is what a pass found out about a build.
pub open spec fn resolution_matches(
    resolved: ResolvedCargoBuildInputs,
    spec: WasmBuildSpecView,
    ambient: Seq<SettingView>,
    cargo_identity: Seq<u8>,
    rustc_identity: Seq<u8>,
    digested: DigestedInputs,
) -> bool {
    &&& resolved.fingerprint@ == digest_of(
        CACHE_FORMAT_VERSION@,
        fingerprint_fields(
            spec,
            environment_of(spec, ambient),
            cargo_identity,
            rustc_identity,
            digested.input_digest@,
        ),
    )
    &&& resolved.input_digest == digested.input_digest
    &&& resolved.validation_digest == digested.validation_digest
    &&& build_inputs_view(resolved.inputs@) == labeled_views(digested.validation_inputs@)
    &&& resolved.exclusions == digested.exclusions
}

impl WasmBuildBatchInputResolver {
    /// Whether the resolver covers `count` builds.
    pub open spec fn wf(&self, count: nat) -> bool {
        &&& self.resolved@.len() == count
        &&& self.grouping.group_by_index@.len() == count
        &&& forall|i: int|
            0 <= i < count ==> (#[trigger] self.grouping.group_by_index@[i])
                < self.grouping.groups@.len()
        &&& forall|g: int|
            0 <= g < self.grouping.groups@.len() ==> #[trigger] members_of(
                self.grouping.group_by_index@,
                g,
                count as int,
            ) == self.grouping.groups@[g]@.map_values(|index: usize| index as int)
    }

    /// A resolver without a source lease.
    pub fn new(keys: &Vec<BatchResolutionKey>) -> (resolver: Self)
        ensures
            resolver.wf(keys@.len()),
            is_grouping(resolver.grouping, keys_view(keys@)),
            forall|i: int| 0 <= i < keys@.len() ==> (#[trigger] resolver.resolved@[i]) is None,
            resolver.metrics == (WasmBuildBatchInputMetrics {
                runs: 0,
                reuses: 0,
                session_reuses: 0,
                prepared_reuses: 0,
            }),
            !resolver.in_session,
            !resolver.prepared,
    {
        let grouping = group_builds(keys);
        let mut resolved: Vec<Option<Result<ResolvedCargoBuildInputs, WasmBuildError>>> =
            Vec::new();
        while resolved.len() < keys.len()
            invariant
                resolved@.len() <= keys@.len(),
                forall|i: int| 0 <= i < resolved@.len() ==> (#[trigger] resolved@[i]) is None,
            decreases keys.len() - resolved.len(),
        {
            resolved.push(None);
        }
        assert(keys_view(keys@).len() == keys@.len());
        WasmBuildBatchInputResolver {
            grouping,
            resolved,
            metrics: WasmBuildBatchInputMetrics::default(),
            in_session: false,
            prepared: false,
        }
    }

    /// Serve every build that the session knows from what it has kept.
    pub fn lease_session(&mut self, specs: &Vec<WasmBuildSpec>, session: &mut WasmBuildSessionState)
        requires
            old(self).wf(specs@.len()),
        ensures
            final(self).wf(specs@.len()),
            final(self).grouping == old(self).grouping,
            final(self).in_session,
            final(self).prepared == old(self).prepared,
            final(session).snapshots == old(session).snapshots,
            final(session).invalidated == old(session).invalidated,
            final(self).metrics == (WasmBuildBatchInputMetrics {
                session_reuses: grown(
                    old(self).metrics.session_reuses,
                    found_count(old(session).snapshots@, specs@, specs@.len() as int),
                ),
                ..old(self).metrics
            }),
            final(session).snapshot_reuses == grown(
                old(session).snapshot_reuses,
                found_count(old(session).snapshots@, specs@, specs@.len() as int),
            ),
            forall|i: int|
                #![trigger final(self).resolved@[i]]
                0 <= i < specs@.len() ==> match snapshot_index(
                    old(session).snapshots@,
                    specs@[i]@,
                    0,
                ) {
                    None => final(self).resolved@[i] == old(self).resolved@[i],
                    Some(at) => {
                        &&& final(self).resolved@[i] matches Some(Ok(found))
                        &&& same_resolution(found, old(session).snapshots@[at].resolved)
                        &&& is_zero_resolution(found.timings)
                    },
                },
    {
        let mut at: usize = 0;
        while at < specs.len()
            invariant
                at <= specs@.len(),
                self.wf(specs@.len()),
                self.grouping == old(self).grouping,
                self.prepared == old(self).prepared,
                session.snapshots == old(session).snapshots,
                session.invalidated == old(session).invalidated,
                self.metrics == (WasmBuildBatchInputMetrics {
                    session_reuses: grown(
                        old(self).metrics.session_reuses,
                        found_count(old(session).snapshots@, specs@, at as int),
                    ),
                    ..old(self).metrics
                }),
                session.snapshot_reuses == grown(
                    old(session).snapshot_reuses,
                    found_count(old(session).snapshots@, specs@, at as int),
                ),
                forall|i: int|
                    #![trigger self.resolved@[i]]
                    at <= i < specs@.len() ==> self.resolved@[i] == old(self).resolved@[i],
                forall|i: int|
                    #![trigger self.resolved@[i]]
                    0 <= i < at ==> match snapshot_index(
                        old(session).snapshots@,
                        specs@[i]@,
                        0,
                    ) {
                        None => self.resolved@[i] == old(self).resolved@[i],
                        Some(k) => {
                            &&& self.resolved@[i] matches Some(Ok(found))
                            &&& same_resolution(found, old(session).snapshots@[k].resolved)
                            &&& is_zero_resolution(found.timings)
                        },
                    },
            decreases specs.len() - at,
        {
            let ghost before = self.resolved@;
            if let Some(found) = session.reuse(&specs[at]) {
                self.metrics.session_reuses = self.metrics.session_reuses.saturating_add(1);
                self.resolved.set(at, Some(Ok(found)));
                assert(self.resolved@ == before.update(at as int, Some(Ok(found))));
            }
            at = at + 1;
        }
        self.in_session = true;
    }

    /// Serve every build from a prepared snapshot, which has to know all of them.
    pub fn lease_prepared(
        &mut self,
        specs: &Vec<WasmBuildSpec>,
        snapshot: &WasmBuildInputSnapshotState,
    )
        requires
            old(self).wf(specs@.len()),
            snapshot.wf(),
            forall|i: int|
                0 <= i < specs@.len() ==> snapshot_index(
                    snapshot.snapshots@,
                    (#[trigger] specs@[i])@,
                    0,
                ) is Some,
        ensures
            final(self).wf(specs@.len()),
            final(self).grouping == old(self).grouping,
            final(self).in_session == old(self).in_session,
            final(self).prepared,
            final(self).metrics == (WasmBuildBatchInputMetrics {
                prepared_reuses: grown(old(self).metrics.prepared_reuses, specs@.len()),
                ..old(self).metrics
            }),
            forall|i: int|
                #![trigger final(self).resolved@[i]]
                0 <= i < specs@.len() ==> {
                    let at = snapshot_index(snapshot.snapshots@, specs@[i]@, 0)->0;
                    &&& final(self).resolved@[i] matches Some(Ok(found))
                    &&& same_resolution(found, snapshot.snapshots@[at].resolved)
                    &&& is_zero_resolution(found.timings)
                },
    {
        let mut at: usize = 0;
        while at < specs.len()
            invariant
                at <= specs@.len(),
                self.wf(specs@.len()),
                self.grouping == old(self).grouping,
                self.in_session == old(self).in_session,
                snapshot.wf(),
                self.metrics == (WasmBuildBatchInputMetrics {
                    prepared_reuses: grown(old(self).metrics.prepared_reuses, at as nat),
                    ..old(self).metrics
                }),
                forall|i: int|
                    0 <= i < specs@.len() ==> snapshot_index(
                        snapshot.snapshots@,
                        (#[trigger] specs@[i])@,
                        0,
                    ) is Some,
                forall|i: int|
                    #![trigger self.resolved@[i]]
                    0 <= i < at ==> {
                        let k = snapshot_index(snapshot.snapshots@, specs@[i]@, 0)->0;
                        &&& self.resolved@[i] matches Some(Ok(found))
                        &&& same_resolution(found, snapshot.snapshots@[k].resolved)
                        &&& is_zero_resolution(found.timings)
                    },
            decreases specs.len() - at,
        {
            let ghost before = self.resolved@;
            assert(snapshot_index(snapshot.snapshots@, specs@[at as int]@, 0) is Some);
            if let Some(found) = snapshot.reuse(&specs[at]) {
                self.metrics.prepared_reuses = self.metrics.prepared_reuses.saturating_add(1);
                self.resolved.set(at, Some(Ok(found)));
                assert(self.resolved@ == before.update(at as int, Some(Ok(found))));
            }
            at = at + 1;
        }
        self.prepared = true;
    }

    /// Whether the batch may take its sources as unchanging.
    pub fn assumes_sources_immutable(&self) -> (immutable: bool)
        ensures
            immutable == (self.in_session || self.prepared),
    {
        self.in_session || self.prepared
    }

    /// Whether a build has to be resolved before its resolution can be taken.
    pub fn needs_resolution(&self, index: usize) -> (needed: bool)
        requires
            index < self.resolved@.len(),
        ensures
            needed == (self.resolved@[index as int] is None),
    {
        self.resolved[index].is_none()
    }

    /// The builds that a pass for build `active` has to discover: those of its group that are
    /// valid and not resolved yet.
    pub fn pending_builds(&self, specs: &Vec<WasmBuildSpec>, active: usize) -> (pending: Vec<usize>)
        requires
            self.wf(specs@.len()),
            active < specs@.len(),
        ensures
            pending@.map_values(|index: usize| index as int) == members_of(
                self.grouping.group_by_index@,
                self.grouping.group_by_index@[active as int] as int,
                specs@.len() as int,
            ).filter(
                |index: int|
                    self.resolved@[index] is None && spec_violation(specs@[index]@) is None,
            ),
    {
        let ghost keep = |index: int|
            self.resolved@[index] is None && spec_violation(specs@[index]@) is None;
        let group = self.grouping.group_by_index[active];
        let members = &self.grouping.groups[group];
        let ghost all = members@.map_values(|index: usize| index as int);
        proof {
            assert(all == members_of(
                self.grouping.group_by_index@,
                group as int,
                specs@.len() as int,
            ));
        }
        let mut pending: Vec<usize> = Vec::new();
        let mut at: usize = 0;
        assert(pending@.map_values(|index: usize| index as int) =~= all.take(0).filter(keep)) by {
            reveal(Seq::filter);
        }
        while at < members.len()
            invariant
                at <= members@.len(),
                self.wf(specs@.len()),
                all == members@.map_values(|index: usize| index as int),
                all == members_of(
                    self.grouping.group_by_index@,
                    group as int,
                    specs@.len() as int,
                ),
                keep == (|index: int|
                    self.resolved@[index] is None && spec_violation(specs@[index]@) is None),
                pending@.map_values(|index: usize| index as int) == all.take(at as int).filter(keep),
            decreases members.len() - at,
        {
            let index = members[at];
            proof {
                reveal(Seq::filter);
                assert(all[at as int] == index);
                lemma_member_bound(
                    self.grouping.group_by_index@,
                    group as int,
                    specs@.len() as int,
                    at as int,
                );
                assert(all.take(at + 1).drop_last() =~= all.take(at as int));
                assert(all.take(at + 1).last() == index);
            }
            let ghost before = pending@;
            if self.resolved[index].is_none() && validate_spec(&specs[index]).is_ok() {
                pending.push(index);
                assert(pending@.map_values(|index: usize| index as int) =~= before.map_values(
                    |index: usize| index as int,
                ).push(index as int));
            }
            at = at + 1;
        }
        assert(all.take(at as int) =~= all);
        pending
    }

    /// A build of the group could not be discovered.
    pub fn record_failure(&mut self, index: usize, error: WasmBuildError)
        requires
            index < old(self).resolved@.len(),
        ensures
            final(self).resolved@ == old(self).resolved@.update(index as int, Some(Err(error))),
            final(self).grouping == old(self).grouping,
            final(self).metrics == old(self).metrics,
            final(self).in_session == old(self).in_session,
            final(self).prepared == old(self).prepared,
    {
        self.resolved.set(index, Some(Err(error)));
    }

    /// Take in what one resolution pass found out about the builds of a group.
    ///
    /// Only one build bears the time of the pass: the active one, else the
    /// first one reached.
    pub fn apply_group(
        &mut self,
        specs: &Vec<WasmBuildSpec>,
        ambient: &Vec<Setting>,
        active: usize,
        cargo_identity: &[u8],
        rustc_identity: &[u8],
        entries: Vec<GroupEntry>,
        timings: WasmInputResolutionTimings,
    )
        requires
            old(self).wf(specs@.len()),
            forall|k: int| 0 <= k < entries@.len() ==> (#[trigger] entries@[k]).index < specs@.len(),
            forall|k: int, l: int|
                #![trigger entries@[k], entries@[l]]
                0 <= k < l < entries@.len() ==> entries@[k].index != entries@[l].index,
        ensures
            final(self).wf(specs@.len()),
            final(self).grouping == old(self).grouping,
            final(self).in_session == old(self).in_session,
            final(self).prepared == old(self).prepared,
            forall|i: int|
                #![trigger final(self).resolved@[i]]
                0 <= i < specs@.len() && !is_reached(entries@, i) ==> final(self).resolved@[i]
                    == old(self).resolved@[i],
            forall|k: int|
                #![trigger entries@[k]]
                0 <= k < entries@.len() ==> {
                    let index = entries@[k].index as int;
                    &&& final(self).resolved@[index] matches Some(Ok(found))
                    &&& resolution_matches(
                        found,
                        specs@[index]@,
                        settings_view(ambient@),
                        cargo_identity@,
                        rustc_identity@,
                        entries@[k].digested,
                    )
                    &&& if index == timed_index(entries@, active as int) {
                        found.timings == timings
                    } else {
                        is_zero_resolution(found.timings)
                    }
                },
            entries@.len() == 0 ==> final(self).metrics == old(self).metrics,
            entries@.len() > 0 ==> final(self).metrics == (WasmBuildBatchInputMetrics {
                runs: counted(old(self).metrics.runs),
                reuses: grown(old(self).metrics.reuses, (entries@.len() - 1) as nat),
                ..old(self).metrics
            }),
    {
        let ghost all = entries@;
        if entries.len() > 0 {
            self.metrics.runs = self.metrics.runs.saturating_add(1);
            self.metrics.reuses = self.metrics.reuses.saturating_add(entries.len() - 1);
        }
        let mut timed = active;
        let mut reached = false;
        let mut at: usize = 0;
        while at < entries.len()
            invariant
                at <= entries@.len(),
                entries@ == all,
                reached == (exists|k: int|
                    0 <= k < at && (#[trigger] all[k]).index == active as int),
            decreases entries.len() - at,
        {
            if entries[at].index == active {
                assert(all[at as int].index == active as int);
                reached = true;
            }
            at = at + 1;
        }
        if !reached && entries.len() > 0 {
            timed = entries[0].index;
        }
        assert(timed == timed_index(all, active as int));
        let ghost start = self.resolved@;
        let mut rest = entries;
        let ghost mut done: int = 0;
        while rest.len() > 0
            invariant
                0 <= done <= all.len(),
                rest@ == all.skip(done),
                timed == timed_index(all, active as int),
                self.wf(specs@.len()),
                self.grouping == old(self).grouping,
                self.in_session == old(self).in_session,
                self.prepared == old(self).prepared,
                all.len() == 0 ==> self.metrics == old(self).metrics,
                all.len() > 0 ==> self.metrics == (WasmBuildBatchInputMetrics {
                    runs: counted(old(self).metrics.runs),
                    reuses: grown(old(self).metrics.reuses, (all.len() - 1) as nat),
                    ..old(self).metrics
                }),
                forall|k: int| 0 <= k < all.len() ==> (#[trigger] all[k]).index < specs@.len(),
                forall|k: int, l: int|
                    #![trigger all[k], all[l]]
                    0 <= k < l < all.len() ==> all[k].index != all[l].index,
                forall|i: int|
                    #![trigger self.resolved@[i]]
                    0 <= i < specs@.len() && !is_reached(all, i) ==> self.resolved@[i] == start[i],
                forall|k: int|
                    #![trigger all[k]]
                    0 <= k < done ==> {
                        let index = all[k].index as int;
                        &&& self.resolved@[index] matches Some(Ok(found))
                        &&& resolution_matches(
                            found,
                            specs@[index]@,
                            settings_view(ambient@),
                            cargo_identity@,
                            rustc_identity@,
                            all[k].digested,
                        )
                        &&& if index == timed_index(all, active as int) {
                            found.timings == timings
                        } else {
                            is_zero_resolution(found.timings)
                        }
                    },
            decreases rest.len(),
        {
            let GroupEntry { index, digested } = rest.remove(0);
            assert(all[done].index == index && all[done].digested == digested);
            let environment = effective_environment(&specs[index], ambient);
            let borne = if index == timed {
                timings
            } else {
                WasmInputResolutionTimings::default()
            };
            let resolved = finish_resolution(
                &specs[index],
                &environment,
                cargo_identity,
                rustc_identity,
                digested,
                borne,
            );
            let ghost before = self.resolved@;
            self.resolved.set(index, Some(Ok(resolved)));
            proof {
                assert(self.resolved@ == before.update(index as int, Some(Ok(resolved))));
                assert(is_reached(all, index as int));
                assert forall|k: int| #![trigger all[k]] 0 <= k < done + 1 implies ({
                    let at = all[k].index as int;
                    &&& self.resolved@[at] matches Some(Ok(found))
                    &&& resolution_matches(
                        found,
                        specs@[at]@,
                        settings_view(ambient@),
                        cargo_identity@,
                        rustc_identity@,
                        all[k].digested,
                    )
                    &&& if at == timed_index(all, active as int) {
                        found.timings == timings
                    } else {
                        is_zero_resolution(found.timings)
                    }
                }) by {
                    if k < done {
                        assert(all[k].index != all[done].index);
                    }
                }
                assert(rest@ =~= all.skip(done + 1));
                done = done + 1;
            }
        }
    }

    /// Take the resolution of a build that has been resolved.
    pub fn take(&mut self, index: usize) -> (result: Result<
        ResolvedCargoBuildInputs,
        WasmBuildError,
    >)
        requires
            index < old(self).resolved@.len(),
            old(self).resolved@[index as int] is Some,
        ensures
            Some(result) == old(self).resolved@[index as int],
            final(self).resolved@ == old(self).resolved@.update(index as int, None),
            final(self).grouping == old(self).grouping,
            final(self).metrics == old(self).metrics,
            final(self).in_session == old(self).in_session,
            final(self).prepared == old(self).prepared,
    {
        let taken = self.resolved.remove(index);
        self.resolved.insert(index, None);
        assert(self.resolved@ =~= old(self).resolved@.update(index as int, None));
        taken.unwrap()
    }

    /// The sources changed under a lease.
    ///
    /// A session is dropped, and everything resolved for this batch with it.
    pub fn invalidate_source_lease(&mut self, session: &mut WasmBuildSessionState)
        ensures
            final(self).grouping == old(self).grouping,
            final(self).metrics == old(self).metrics,
            final(self).prepared == old(self).prepared,
            !final(self).in_session,
            old(self).in_session ==> {
                &&& final(session).snapshots@.len() == 0
                &&& final(session).invalidated
                &&& final(session).snapshot_reuses == old(session).snapshot_reuses
                &&& final(self).resolved@.len() == old(self).resolved@.len()
                &&& forall|i: int|
                    0 <= i < final(self).resolved@.len() ==> (
                    #[trigger] final(self).resolved@[i]) is None
            },
            !old(self).in_session ==> {
                &&& *final(session) == *old(session)
                &&& final(self).resolved == old(self).resolved
            },
    {
        if self.in_session {
            session.invalidate();
            let count = self.resolved.len();
            let mut cleared: Vec<Option<Result<ResolvedCargoBuildInputs, WasmBuildError>>> =
                Vec::new();
            while cleared.len() < count
                invariant
                    cleared@.len() <= count,
                    forall|i: int| 0 <= i < cleared@.len() ==> (#[trigger] cleared@[i]) is None,
                decreases count - cleared.len(),
            {
                cleared.push(None);
            }
            self.resolved = cleared;
            self.in_session = false;
        }
    }
}

proof fn lemma_member_bound(group_by_index: Seq<usize>, group: int, upto: int, at: int)
    requires
        0 <= upto <= group_by_index.len(),
        0 <= at < members_of(group_by_index, group, upto).len(),
    ensures
        0 <= members_of(group_by_index, group, upto)[at] < upto,
    decreases upto,
{
    if upto > 0 {
        if group_by_index[upto - 1] == group {
            if at < members_of(group_by_index, group, upto - 1).len() {
                lemma_member_bound(group_by_index, group, upto - 1, at);
            }
        } else {
            lemma_member_bound(group_by_index, group, upto - 1, at);
        }
    }
}

} // verus!

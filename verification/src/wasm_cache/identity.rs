//! Identity of a cacheable Wasm build: validation, environment, fingerprint and cached files.

use vstd::prelude::*;
use vstd::string::*;
use vstd::utf8::encode_utf8;
use super::error::{invalid_spec, WasmBuildError};
use super::spec::{
    set_all, unset_names, unset_settings, with_settings, CacheModeView, WasmBuildCacheMode,
    WasmBuildSpec, WasmBuildSpecView, CACHE_FORMAT_VERSION,
};
use crate::digest::{digest_of, field, hex, Field, InputDigest, InputHasher};
use crate::order::{lemma_ranked_view, sort_ranked, sorted_by, text_before};
use crate::paths::{
    file_name, file_name_of, is_absolute, is_absolute_path, join, joined, with_file_name, with_name,
};
use crate::settings::{
    copy_bytes, copy_optional, copy_settings, lookup, optional_bytes, setting_of, settings_view,
    Setting, SettingView,
};
use crate::text::{bytes_of, copy_texts, is_text, starts_with_text, text_equal, texts};
use crate::tree::byte_strings;

verus! {

/// Domain under which a Wasm artifact is hashed.
pub const ARTIFACT_DOMAIN: &'static str = "wasm-artifact-v1";

/// What is wrong with a specification, or `None` when it can be built.
pub open spec fn spec_violation(spec: WasmBuildSpecView) -> Option<Seq<char>> {
    if spec.packages.len() == 0 {
        Some("at least one Cargo package is required"@)
    } else if spec.profile_target_dir.len() == 0 {
        Some("Cargo profile target directory must not be empty"@)
    } else if spec.target.len() == 0 {
        Some("Cargo compilation target must not be empty"@)
    } else if spec.cache_mode matches CacheModeView::SharedIncremental(dir) && dir.len() == 0 {
        Some("shared incremental Cargo target directory must not be empty"@)
    } else if spec.shared_incremental_maintenance is Some && !(spec.cache_mode is SharedIncremental) {
        Some(
            "scheduled shared-target maintenance requires a shared incremental Cargo target"@,
        )
    } else {
        None
    }
}

/// Check that a specification can be built.
pub fn validate_spec(spec: &WasmBuildSpec) -> (result: Result<(), WasmBuildError>)
    ensures
        match (result, spec_violation(spec@)) {
            (Ok(()), None) => true,
            (Err(WasmBuildError::InvalidSpec { message }), Some(expected)) => message@ == expected,
            _ => false,
        },
{
    if spec.packages().len() == 0 {
        return Err(invalid_spec("at least one Cargo package is required"));
    }
    if spec.profile_target_dir().is_empty() {
        return Err(invalid_spec("Cargo profile target directory must not be empty"));
    }
    if spec.target().is_empty() {
        return Err(invalid_spec("Cargo compilation target must not be empty"));
    }
    match spec.cache_mode() {
        WasmBuildCacheMode::SharedIncremental { target_dir } => {
            if target_dir.len() == 0 {
                return Err(
                    invalid_spec("shared incremental Cargo target directory must not be empty"),
                );
            }
        },
        WasmBuildCacheMode::Isolated => {
            if spec.shared_incremental_target_maintenance().is_some() {
                return Err(
                    invalid_spec(
                        "scheduled shared-target maintenance requires a shared incremental Cargo target",
                    ),
                );
            }
        },
    }
    Ok(())
}

/// Where the shared Cargo target lies, when one is configured.
pub open spec fn shared_target_path(spec: WasmBuildSpecView) -> Option<Seq<u8>> {
    match spec.cache_mode {
        CacheModeView::Isolated => None,
        CacheModeView::SharedIncremental(target_dir) => Some(
            if is_absolute_path(target_dir) {
                target_dir
            } else {
                joined(spec.workspace_root, target_dir)
            },
        ),
    }
}

/// Where the shared Cargo target lies, when one is configured.
pub fn shared_incremental_target(spec: &WasmBuildSpec) -> (target: Option<Vec<u8>>)
    ensures
        optional_bytes(target) == shared_target_path(spec@),
{
    match spec.cache_mode() {
        WasmBuildCacheMode::Isolated => None,
        WasmBuildCacheMode::SharedIncremental { target_dir } => {
            if is_absolute(target_dir.as_slice()) {
                Some(copy_bytes(target_dir.as_slice()))
            } else {
                Some(join(spec.workspace_root(), target_dir.as_slice()))
            }
        },
    }
}

/// Toolchain variables whose ambient values always affect a build.
pub open spec fn automatic_names() -> Seq<Seq<u8>> {
    seq![
        encode_utf8("CARGO_BUILD_RUSTC"@),
        encode_utf8("CARGO_ENCODED_RUSTFLAGS"@),
        encode_utf8("RUSTC"@),
        encode_utf8("RUSTC_WRAPPER"@),
        encode_utf8("RUSTC_WORKSPACE_WRAPPER"@),
        encode_utf8("RUSTFLAGS"@),
        encode_utf8("RUSTUP_TOOLCHAIN"@),
    ]
}

fn automatic_environment() -> (names: Vec<Vec<u8>>)
    ensures
        byte_strings(names@) == automatic_names(),
{
    let mut names: Vec<Vec<u8>> = Vec::new();
    names.push(bytes_of("CARGO_BUILD_RUSTC"));
    names.push(bytes_of("CARGO_ENCODED_RUSTFLAGS"));
    names.push(bytes_of("RUSTC"));
    names.push(bytes_of("RUSTC_WRAPPER"));
    names.push(bytes_of("RUSTC_WORKSPACE_WRAPPER"));
    names.push(bytes_of("RUSTFLAGS"));
    names.push(bytes_of("RUSTUP_TOOLCHAIN"));
    assert(byte_strings(names@) =~= automatic_names());
    names
}

/// Names whose ambient values affect the build, each without a value.
pub open spec fn ambient_names(spec: WasmBuildSpecView) -> Seq<SettingView> {
    with_settings(spec.inherited_env, unset_names(automatic_names()))
}

/// Names whose ambient values affect the build, each without a value.
pub fn environment_names(spec: &WasmBuildSpec) -> (names: Vec<Setting>)
    ensures
        settings_view(names@) == ambient_names(spec@),
{
    let mut names = copy_settings(spec.inherited_env());
    let automatic = automatic_environment();
    let added = unset_settings(&automatic);
    set_all(&mut names, &added);
    names
}

/// The value that the ambient environment gives to `name`.
pub open spec fn ambient_value(ambient: Seq<SettingView>, name: Seq<u8>) -> Option<Seq<u8>> {
    match setting_of(ambient, name) {
        Some(value) => value,
        None => None,
    }
}

/// Each of `names` with its ambient value.
pub open spec fn inherited_settings(
    names: Seq<SettingView>,
    ambient: Seq<SettingView>,
) -> Seq<SettingView> {
    names.map_values(
        |setting: SettingView| SettingView {
            name: setting.name,
            value: ambient_value(ambient, setting.name),
        },
    )
}

/// The environment that identifies a build: the ambient values of its names, then its overrides.
pub open spec fn environment_of(
    spec: WasmBuildSpecView,
    ambient: Seq<SettingView>,
) -> Seq<SettingView> {
    with_settings(inherited_settings(ambient_names(spec), ambient), spec.extra_env)
}

/// The environment that identifies a build.
///
/// `ambient` holds the values that the process environment gives to the names
/// of [`environment_names`].
pub fn effective_environment(spec: &WasmBuildSpec, ambient: &Vec<Setting>) -> (environment: Vec<Setting>)
    ensures
        settings_view(environment@) == environment_of(spec@, settings_view(ambient@)),
{
    let names = environment_names(spec);
    let ghost all = settings_view(names@);
    let ghost inherited = inherited_settings(all, settings_view(ambient@));
    let mut environment: Vec<Setting> = Vec::new();
    let mut at: usize = 0;
    while at < names.len()
        invariant
            at <= names@.len(),
            all == settings_view(names@),
            inherited == inherited_settings(all, settings_view(ambient@)),
            settings_view(environment@) == inherited.take(at as int),
        decreases names.len() - at,
    {
        let ghost before = settings_view(environment@);
        let name = copy_bytes(names[at].name.as_slice());
        let value = match lookup(ambient, name.as_slice()) {
            Some(setting) => copy_optional(&setting.value),
            None => None,
        };
        environment.push(Setting { name, value });
        proof {
            assert(settings_view(environment@) =~= before.push(inherited[at as int]));
            assert(inherited.take(at + 1) =~= inherited.take(at as int).push(inherited[at as int]));
        }
        at = at + 1;
    }
    assert(inherited.take(at as int) =~= inherited);
    set_all(&mut environment, spec.extra_env());
    environment
}

/// A list without consecutive repetitions.
pub open spec fn without_repeats(items: Seq<Seq<char>>) -> Seq<Seq<char>>
    decreases items.len(),
{
    if items.len() == 0 {
        items
    } else if items.len() > 1 && items[items.len() - 2] == items.last() {
        without_repeats(items.drop_last())
    } else {
        without_repeats(items.drop_last()).push(items.last())
    }
}

/// Package names in order, each once.
pub open spec fn distinct_packages(packages: Seq<Seq<char>>) -> Seq<Seq<char>> {
    without_repeats(sorted_by(packages, text_before()))
}

/// Package names in order, each once.
pub fn sorted_packages(spec: &WasmBuildSpec) -> (packages: Vec<String>)
    ensures
        texts(packages@) == distinct_packages(spec@.packages),
{
    let given = spec.packages();
    let mut all = copy_texts(given);
    sort_ranked(&mut all);
    proof {
        lemma_ranked_view(given@, |string: String| string@, text_before());
    }
    let ghost sorted = texts(all@);
    let mut packages: Vec<String> = Vec::new();
    let mut at: usize = 0;
    assert(texts(packages@) =~= without_repeats(sorted.take(0)));
    while at < all.len()
        invariant
            at <= all@.len(),
            sorted == texts(all@),
            texts(packages@) == without_repeats(sorted.take(at as int)),
        decreases all.len() - at,
    {
        proof {
            let next = sorted.take(at + 1);
            assert(next.drop_last() =~= sorted.take(at as int));
            assert(next.last() == all@[at as int]@);
            if at > 0 {
                assert(next[next.len() - 2] == all@[at - 1]@);
            }
        }
        if at == 0 || !text_equal(all[at - 1].as_str(), all[at].as_str()) {
            let ghost before = texts(packages@);
            packages.push(all[at].clone());
            assert(texts(packages@) =~= before.push(all@[at as int]@));
        }
        at = at + 1;
    }
    assert(sorted.take(at as int) =~= sorted);
    packages
}

/// Fields that stand for a list of package names.
pub open spec fn package_fields(packages: Seq<Seq<char>>) -> Seq<Field> {
    packages.map_values(|package: Seq<char>| field("package"@, encode_utf8(package)))
}

/// Fields that stand for a list of Cargo arguments.
pub open spec fn argument_fields(arguments: Seq<Seq<u8>>) -> Seq<Field> {
    arguments.map_values(|argument: Seq<u8>| field("cargo-argument"@, argument))
}

/// Fields that stand for one environment setting.
pub open spec fn setting_fields(
    setting: SettingView,
    name_label: Seq<char>,
) -> Seq<Field> {
    seq![
        field(name_label, setting.name),
        match setting.value {
            Some(value) => field("environment-value"@, value),
            None => field("environment-unset"@, seq![]),
        },
    ]
}

/// Fields that stand for an environment.
pub open spec fn environment_fields(
    settings: Seq<SettingView>,
    name_label: Seq<char>,
) -> Seq<Field>
    decreases settings.len(),
{
    if settings.len() == 0 {
        seq![]
    } else {
        environment_fields(settings.drop_last(), name_label) + setting_fields(
            settings.last(),
            name_label,
        )
    }
}

/// Everything that identifies one exact build.
pub open spec fn fingerprint_fields(
    spec: WasmBuildSpecView,
    environment: Seq<SettingView>,
    cargo_identity: Seq<u8>,
    rustc_identity: Seq<u8>,
    input_digest: Seq<u8>,
) -> Seq<Field> {
    package_fields(distinct_packages(spec.packages)) + seq![
        field("target"@, encode_utf8(spec.target)),
        field("profile-target-dir"@, encode_utf8(spec.profile_target_dir)),
    ] + argument_fields(spec.cargo_profile_args) + environment_fields(
        environment,
        "environment-key"@,
    ) + seq![
        field("cargo-identity"@, cargo_identity),
        field("rustc-identity"@, rustc_identity),
        field("source-input-digest"@, input_digest),
    ]
}

/// Take in an environment, each name under `name_label`.
pub fn hash_environment(hasher: &mut InputHasher, settings: &Vec<Setting>, name_label: &str)
    requires
        old(hasher).wf(),
        !old(hasher).in_file(),
    ensures
        final(hasher).wf(),
        !final(hasher).in_file(),
        final(hasher)@ == old(hasher)@ + environment_fields(settings_view(settings@), name_label@),
{
    let ghost start = hasher@;
    let ghost all = settings_view(settings@);
    let mut at: usize = 0;
    assert(all.take(0) =~= seq![]);
    assert(start + environment_fields(all.take(0), name_label@) =~= start);
    while at < settings.len()
        invariant
            at <= settings@.len(),
            all == settings_view(settings@),
            hasher.wf(),
            !hasher.in_file(),
            hasher@ == start + environment_fields(all.take(at as int), name_label@),
        decreases settings.len() - at,
    {
        let ghost before = hasher@;
        let setting = &settings[at];
        hasher.field(name_label, setting.name.as_slice());
        match &setting.value {
            Some(value) => {
                hasher.field("environment-value", value.as_slice());
            },
            None => {
                let empty: Vec<u8> = Vec::new();
                hasher.field("environment-unset", empty.as_slice());
                assert(empty@ =~= seq![]);
            },
        }
        proof {
            assert(all.take(at + 1).drop_last() =~= all.take(at as int));
            assert(all.take(at + 1).last() == settings@[at as int]@);
            assert(hasher@ =~= before + setting_fields(settings@[at as int]@, name_label@));
            assert(hasher@ =~= start + environment_fields(all.take(at + 1), name_label@));
        }
        at = at + 1;
    }
    assert(all.take(at as int) =~= all);
}

/// Whether a field belongs to an environment whose names stand under `name_label`.
pub open spec fn is_environment_field(name_label: Seq<char>) -> spec_fn(Field) -> bool {
    |item: Field|
        item.label == name_label || item.label == "environment-value"@ || item.label
            == "environment-unset"@
}

/// Every field of an environment belongs to it.
pub proof fn lemma_environment_labels(settings: Seq<SettingView>, name_label: Seq<char>)
    ensures
        environment_fields(settings, name_label).len() == 2 * settings.len(),
        forall|i: int|
            0 <= i < environment_fields(settings, name_label).len() ==> is_environment_field(
                name_label,
            )(#[trigger] environment_fields(settings, name_label)[i]),
    decreases settings.len(),
{
    if settings.len() > 0 {
        lemma_environment_labels(settings.drop_last(), name_label);
    }
}

/// The fields of an environment say everything that it sets, and what it only names.
pub proof fn lemma_environment_fields_injective(
    left: Seq<SettingView>,
    right: Seq<SettingView>,
    name_label: Seq<char>,
)
    requires
        environment_fields(left, name_label) == environment_fields(right, name_label),
    ensures
        left == right,
    decreases left.len(),
{
    lemma_environment_labels(left, name_label);
    lemma_environment_labels(right, name_label);
    if left.len() > 0 {
        let (a, b) = (environment_fields(left, name_label), environment_fields(right, name_label));
        let (x, y) = (
            environment_fields(left.drop_last(), name_label),
            environment_fields(right.drop_last(), name_label),
        );
        lemma_environment_labels(left.drop_last(), name_label);
        lemma_environment_labels(right.drop_last(), name_label);
        let (p, q) = (
            setting_fields(left.last(), name_label),
            setting_fields(right.last(), name_label),
        );
        assert(x =~= a.take(x.len() as int));
        assert(y =~= b.take(x.len() as int));
        assert(p =~= a.skip(x.len() as int));
        assert(q =~= b.skip(x.len() as int));
        assert(p[0] == q[0]);
        assert(p[1] == q[1]);
        reveal_strlit("environment-value");
        reveal_strlit("environment-unset");
        assert("environment-value"@[12] == 'v');
        assert("environment-unset"@[12] == 'u');
        assert(left.last() == right.last());
        lemma_environment_fields_injective(left.drop_last(), right.drop_last(), name_label);
        assert(left =~= left.drop_last().push(left.last()));
        assert(right =~= right.drop_last().push(right.last()));
    } else {
        assert(left =~= right);
    }
}

/// The fingerprint of one exact build.
///
/// `environment` is what [`effective_environment`] gives for `spec`.
pub fn finish_build_fingerprint(
    spec: &WasmBuildSpec,
    environment: &Vec<Setting>,
    cargo_identity: &[u8],
    rustc_identity: &[u8],
    input_digest: InputDigest,
) -> (fingerprint: InputDigest)
    ensures
        fingerprint@ == digest_of(
            CACHE_FORMAT_VERSION@,
            fingerprint_fields(
                spec@,
                settings_view(environment@),
                cargo_identity@,
                rustc_identity@,
                input_digest@,
            ),
        ),
{
    let mut hasher = InputHasher::new(CACHE_FORMAT_VERSION);
    let ghost domain = hasher@;
    let packages = sorted_packages(spec);
    let ghost names = texts(packages@);
    let mut at: usize = 0;
    assert(domain + package_fields(names.take(0)) =~= domain);
    while at < packages.len()
        invariant
            at <= packages@.len(),
            names == texts(packages@),
            hasher.wf(),
            !hasher.in_file(),
            hasher@ == domain + package_fields(names.take(at as int)),
        decreases packages.len() - at,
    {
        hasher.field("package", packages[at].as_str().as_bytes());
        proof {
            assert(names.take(at + 1) =~= names.take(at as int).push(names[at as int]));
            assert(package_fields(names.take(at + 1)) =~= package_fields(
                names.take(at as int),
            ).push(field("package"@, encode_utf8(names[at as int]))));
            assert(hasher@ =~= domain + package_fields(names.take(at + 1)));
        }
        at = at + 1;
    }
    assert(names.take(at as int) =~= names);
    hasher.field("target", spec.target().as_bytes());
    hasher.field("profile-target-dir", spec.profile_target_dir().as_bytes());
    let ghost start = hasher@;
    let arguments = spec.cargo_profile_args();
    let ghost given = byte_strings(arguments@);
    at = 0;
    assert(start + argument_fields(given.take(0)) =~= start);
    while at < arguments.len()
        invariant
            at <= arguments@.len(),
            given == byte_strings(arguments@),
            hasher.wf(),
            !hasher.in_file(),
            hasher@ == start + argument_fields(given.take(at as int)),
        decreases arguments.len() - at,
    {
        hasher.field("cargo-argument", arguments[at].as_slice());
        proof {
            assert(given.take(at + 1) =~= given.take(at as int).push(given[at as int]));
            assert(argument_fields(given.take(at + 1)) =~= argument_fields(
                given.take(at as int),
            ).push(field("cargo-argument"@, given[at as int])));
            assert(hasher@ =~= start + argument_fields(given.take(at + 1)));
        }
        at = at + 1;
    }
    assert(given.take(at as int) =~= given);
    hash_environment(&mut hasher, environment, "environment-key");
    hasher.field("cargo-identity", cargo_identity);
    hasher.field("rustc-identity", rustc_identity);
    hasher.field("source-input-digest", input_digest.as_bytes().as_slice());
    proof {
        assert(hasher@ =~= domain + fingerprint_fields(
            spec@,
            settings_view(environment@),
            cargo_identity@,
            rustc_identity@,
            input_digest@,
        ));
    }
    hasher.finish()
}

/// Whether an argument is a flag that also steers the resolution of the package graph.
pub open spec fn is_resolution_flag(argument: Seq<u8>) -> bool {
    ||| argument == encode_utf8("--all-features"@)
    ||| argument == encode_utf8("--no-default-features"@)
    ||| argument == encode_utf8("--locked"@)
    ||| argument == encode_utf8("--offline"@)
    ||| argument == encode_utf8("--frozen"@)
}

/// Whether an argument is an option of the resolution whose value stands behind it.
pub open spec fn is_resolution_option(argument: Seq<u8>) -> bool {
    ||| argument == encode_utf8("--features"@)
    ||| argument == encode_utf8("-F"@)
    ||| argument == encode_utf8("--filter-platform"@)
}

/// Whether an argument is an option of the resolution that holds its value.
pub open spec fn is_resolution_assignment(argument: Seq<u8>) -> bool {
    ||| encode_utf8("--features="@).is_prefix_of(argument)
    ||| encode_utf8("--filter-platform="@).is_prefix_of(argument)
}

/// The arguments that also steer the resolution of the package graph.
pub open spec fn resolution_arguments(arguments: Seq<Seq<u8>>) -> Seq<Seq<u8>>
    decreases arguments.len(),
{
    if arguments.len() == 0 {
        seq![]
    } else {
        let first = arguments[0];
        let rest = arguments.drop_first();
        if is_resolution_flag(first) {
            seq![first] + resolution_arguments(rest)
        } else if is_resolution_option(first) {
            if rest.len() == 0 {
                seq![first]
            } else {
                seq![first, rest[0]] + resolution_arguments(rest.drop_first())
            }
        } else if is_resolution_assignment(first) {
            seq![first] + resolution_arguments(rest)
        } else {
            resolution_arguments(rest)
        }
    }
}

fn names_flag(argument: &[u8]) -> (named: bool)
    ensures
        named == is_resolution_flag(argument@),
{
    is_text(argument, "--all-features") || is_text(argument, "--no-default-features") || is_text(
        argument,
        "--locked",
    ) || is_text(argument, "--offline") || is_text(argument, "--frozen")
}

fn names_option(argument: &[u8]) -> (named: bool)
    ensures
        named == is_resolution_option(argument@),
{
    is_text(argument, "--features") || is_text(argument, "-F") || is_text(
        argument,
        "--filter-platform",
    )
}

/// The arguments that also steer the resolution of the package graph.
pub fn metadata_arguments(arguments: &Vec<Vec<u8>>) -> (selected: Vec<Vec<u8>>)
    ensures
        byte_strings(selected@) == resolution_arguments(byte_strings(arguments@)),
{
    let ghost all = byte_strings(arguments@);
    let mut selected: Vec<Vec<u8>> = Vec::new();
    let mut at: usize = 0;
    assert(all.skip(0) =~= all);
    assert(byte_strings(selected@) + resolution_arguments(all) =~= resolution_arguments(all));
    while at < arguments.len()
        invariant
            at <= arguments@.len(),
            all == byte_strings(arguments@),
            byte_strings(selected@) + resolution_arguments(all.skip(at as int))
                == resolution_arguments(all),
        decreases arguments.len() - at,
    {
        let ghost before = byte_strings(selected@);
        let ghost rest = all.skip(at as int);
        let argument = arguments[at].as_slice();
        proof {
            assert(rest[0] == argument@);
            assert(rest.drop_first() =~= all.skip(at + 1));
        }
        if names_flag(argument) {
            selected.push(copy_bytes(argument));
            assert(byte_strings(selected@) =~= before.push(argument@));
            assert(before.push(argument@) + resolution_arguments(all.skip(at + 1)) =~= before
                + resolution_arguments(rest));
            at = at + 1;
        } else if names_option(argument) {
            selected.push(copy_bytes(argument));
            assert(byte_strings(selected@) =~= before.push(argument@));
            if at + 1 < arguments.len() {
                let value = arguments[at + 1].as_slice();
                selected.push(copy_bytes(value));
                proof {
                    assert(all.skip(at + 1)[0] == value@);
                    assert(all.skip(at + 1).drop_first() =~= all.skip(at + 2));
                    assert(byte_strings(selected@) =~= before.push(argument@).push(value@));
                    assert(before.push(argument@).push(value@) + resolution_arguments(
                        all.skip(at + 2),
                    ) =~= before + resolution_arguments(rest));
                }
                at = at + 2;
            } else {
                proof {
                    assert(all.skip(at + 1).len() == 0);
                    assert(resolution_arguments(rest) =~= seq![argument@]);
                    assert(resolution_arguments(all.skip(at + 1)) =~= seq![]);
                    assert(before.push(argument@) + resolution_arguments(all.skip(at + 1))
                        =~= before + resolution_arguments(rest));
                }
                at = at + 1;
            }
        } else if starts_with_text(argument, "--features=") || starts_with_text(
            argument,
            "--filter-platform=",
        ) {
            selected.push(copy_bytes(argument));
            assert(byte_strings(selected@) =~= before.push(argument@));
            assert(before.push(argument@) + resolution_arguments(all.skip(at + 1)) =~= before
                + resolution_arguments(rest));
            at = at + 1;
        } else {
            at = at + 1;
        }
    }
    assert(resolution_arguments(all.skip(at as int)) =~= seq![]);
    assert(byte_strings(selected@) =~= resolution_arguments(all));
    selected
}

/// File name of a package's Wasm artifact.
pub open spec fn wasm_name(package: Seq<char>) -> Seq<u8> {
    encode_utf8(package + ".wasm"@)
}

/// Where a package's Wasm artifact lies below a Cargo target directory.
pub open spec fn artifact_path(
    target_dir: Seq<u8>,
    target: Seq<char>,
    profile: Seq<char>,
    package: Seq<char>,
) -> Seq<u8> {
    joined(
        joined(joined(target_dir, encode_utf8(target)), encode_utf8(profile)),
        wasm_name(package),
    )
}

/// Where a package's Wasm artifact lies below a Cargo target directory.
pub fn artifact_location(target_dir: &[u8], target: &str, profile: &str, package: &str) -> (path: Vec<u8>)
    ensures
        path@ == artifact_path(target_dir@, target@, profile@, package@),
{
    let mut name = package.to_owned();
    name.append(".wasm");
    let directory = join(target_dir, target.as_bytes());
    let directory = join(directory.as_slice(), profile.as_bytes());
    join(directory.as_slice(), name.as_str().as_bytes())
}

/// Where the artifacts of a build lie below a Cargo target directory.
pub open spec fn artifact_paths(spec: WasmBuildSpecView, target_dir: Seq<u8>) -> Seq<Seq<u8>> {
    distinct_packages(spec.packages).map_values(
        |package: Seq<char>|
            artifact_path(target_dir, spec.target, spec.profile_target_dir, package),
    )
}

/// Where the artifacts of a build lie below a Cargo target directory.
pub fn expected_artifacts(spec: &WasmBuildSpec, target_dir: &[u8]) -> (paths: Vec<Vec<u8>>)
    ensures
        byte_strings(paths@) == artifact_paths(spec@, target_dir@),
{
    let packages = sorted_packages(spec);
    let ghost all = artifact_paths(spec@, target_dir@);
    let mut paths: Vec<Vec<u8>> = Vec::new();
    let mut at: usize = 0;
    while at < packages.len()
        invariant
            at <= packages@.len(),
            all == artifact_paths(spec@, target_dir@),
            texts(packages@) == distinct_packages(spec@.packages),
            byte_strings(paths@) == all.take(at as int),
        decreases packages.len() - at,
    {
        let ghost before = byte_strings(paths@);
        assert(texts(packages@)[at as int] == packages@[at as int]@);
        paths.push(
            artifact_location(
                target_dir,
                spec.target(),
                spec.profile_target_dir(),
                packages[at].as_str(),
            ),
        );
        proof {
            assert(byte_strings(paths@) =~= before.push(all[at as int]));
            assert(all.take(at + 1) =~= all.take(at as int).push(all[at as int]));
        }
        at = at + 1;
    }
    assert(texts(packages@).len() == packages@.len());
    assert(all.take(at as int) =~= all);
    paths
}

/// Directory that holds the exact cache entries below a target directory.
pub open spec fn cache_root_path(target_dir: Seq<u8>) -> Seq<u8> {
    joined(target_dir, encode_utf8(".ic-testkit/wasm-targets"@))
}

/// Directory of the exact cache entry for a fingerprint.
pub open spec fn cache_entry_path(target_dir: Seq<u8>, fingerprint: Seq<u8>) -> Seq<u8> {
    joined(cache_root_path(target_dir), encode_utf8(hex(fingerprint)))
}

/// Directory that holds the exact cache entries below a target directory.
pub fn cache_root_directory(target_dir: &[u8]) -> (path: Vec<u8>)
    ensures
        path@ == cache_root_path(target_dir@),
{
    join(target_dir, ".ic-testkit/wasm-targets".as_bytes())
}

/// Directory of the exact cache entry for a fingerprint.
pub fn cache_entry_directory(spec: &WasmBuildSpec, fingerprint: InputDigest) -> (path: Vec<u8>)
    ensures
        path@ == cache_entry_path(spec@.target_dir, fingerprint@),
{
    let root = cache_root_directory(spec.target_dir());
    join(root.as_slice(), fingerprint.to_hex().as_str().as_bytes())
}

/// A file that stands beside `artifact`, named after it.
pub open spec fn beside(artifact: Seq<u8>, suffix: Seq<char>) -> Seq<u8> {
    let name = match file_name_of(artifact) {
        Some(name) => name,
        None => encode_utf8("artifact"@),
    };
    with_name(artifact, name + encode_utf8(suffix))
}

/// A file that stands beside `artifact`, named after it.
pub fn file_beside(artifact: &[u8], suffix: &str) -> (path: Vec<u8>)
    ensures
        path@ == beside(artifact@, suffix@),
{
    let mut name = match file_name(artifact) {
        Some(found) => found,
        None => bytes_of("artifact"),
    };
    let mut tail = bytes_of(suffix);
    name.append(&mut tail);
    with_file_name(artifact, name.as_slice())
}

/// Where the stamp of a Wasm artifact lies.
pub fn artifact_stamp_path(artifact: &[u8]) -> (path: Vec<u8>)
    ensures
        path@ == beside(artifact@, ".ic-testkit-build"@),
{
    file_beside(artifact, ".ic-testkit-build")
}

/// Contents of the stamp of a Wasm artifact.
pub open spec fn stamp_text(fingerprint: Seq<u8>, artifact_digest: Seq<u8>) -> Seq<char> {
    CACHE_FORMAT_VERSION@ + "\nbuild-sha256:"@ + hex(fingerprint) + "\nartifact-sha256:"@ + hex(
        artifact_digest,
    ) + "\n"@
}

/// Contents of the stamp of a Wasm artifact.
pub fn artifact_stamp_contents(fingerprint: InputDigest, artifact_digest: InputDigest) -> (text: String)
    ensures
        text@ == stamp_text(fingerprint@, artifact_digest@),
{
    let mut text = CACHE_FORMAT_VERSION.to_owned();
    text.append("\nbuild-sha256:");
    text.append(fingerprint.to_hex().as_str());
    text.append("\nartifact-sha256:");
    text.append(artifact_digest.to_hex().as_str());
    text.append("\n");
    text
}

/// A stamp tells which build and which artifact it was written for.
pub proof fn lemma_stamp_identifies_build(
    fingerprint: Seq<u8>,
    artifact_digest: Seq<u8>,
    other_fingerprint: Seq<u8>,
    other_digest: Seq<u8>,
)
    requires
        fingerprint.len() == 32,
        artifact_digest.len() == 32,
        other_fingerprint.len() == 32,
        other_digest.len() == 32,
        stamp_text(fingerprint, artifact_digest) == stamp_text(other_fingerprint, other_digest),
    ensures
        fingerprint == other_fingerprint,
        artifact_digest == other_digest,
{
    crate::digest::lemma_hex_text(fingerprint);
    crate::digest::lemma_hex_text(other_fingerprint);
    crate::digest::lemma_hex_text(artifact_digest);
    crate::digest::lemma_hex_text(other_digest);
    let head = CACHE_FORMAT_VERSION@ + "\nbuild-sha256:"@;
    let middle = "\nartifact-sha256:"@;
    let (left, right) = (
        stamp_text(fingerprint, artifact_digest),
        stamp_text(other_fingerprint, other_digest),
    );
    let start = head.len() as int;
    let next = start + 64 + middle.len() as int;
    assert(left.subrange(start, start + 64) =~= hex(fingerprint));
    assert(right.subrange(start, start + 64) =~= hex(other_fingerprint));
    assert(left.subrange(next, next + 64) =~= hex(artifact_digest));
    assert(right.subrange(next, next + 64) =~= hex(other_digest));
    crate::digest::lemma_hex_injective(fingerprint, other_fingerprint);
    crate::digest::lemma_hex_injective(artifact_digest, other_digest);
}

/// A cached or published artifact as it is found on disk.
#[derive(Clone, Debug)]
pub struct ArtifactState {
    /// Whether the path is a regular file.
    pub is_file: bool,
    /// Length of the file.
    pub bytes: u64,
    /// Digest of its contents, when they could be read.
    pub digest: Option<InputDigest>,
    /// Text of its stamp, when it could be read.
    pub stamp: Option<String>,
}

/// Whether an artifact is present and was stamped for exactly this build and content.
pub open spec fn artifact_matches(state: ArtifactState, fingerprint: Seq<u8>) -> bool {
    &&& state.is_file
    &&& state.bytes > 0
    &&& state.digest is Some
    &&& state.stamp is Some
    &&& state.stamp->0@ == stamp_text(fingerprint, state.digest->0@)
}

/// Whether every artifact is present and was stamped for exactly this build and content.
pub fn artifact_set_matches(states: &Vec<ArtifactState>, fingerprint: InputDigest) -> (matches: bool)
    ensures
        matches == forall|i: int|
            0 <= i < states@.len() ==> artifact_matches(#[trigger] states@[i], fingerprint@),
{
    let mut at: usize = 0;
    while at < states.len()
        invariant
            at <= states@.len(),
            forall|i: int|
                0 <= i < at ==> artifact_matches(#[trigger] states@[i], fingerprint@),
        decreases states.len() - at,
    {
        let state = &states[at];
        let current = match (&state.digest, &state.stamp) {
            (Some(digest), Some(stamp)) => {
                let expected = artifact_stamp_contents(fingerprint, *digest);
                state.is_file && state.bytes > 0 && text_equal(stamp.as_str(), expected.as_str())
            },
            _ => false,
        };
        if !current {
            assert(!artifact_matches(states@[at as int], fingerprint@));
            return false;
        }
        at = at + 1;
    }
    true
}

/// The artifacts that are not nonempty regular files.
pub open spec fn missing_of(paths: Seq<Seq<u8>>, states: Seq<ArtifactState>) -> Seq<Seq<u8>>
    decreases paths.len(),
{
    if paths.len() == 0 || states.len() < paths.len() {
        seq![]
    } else {
        let before = missing_of(paths.drop_last(), states.take(paths.len() - 1));
        let state = states[paths.len() - 1];
        if state.is_file && state.bytes > 0 {
            before
        } else {
            before.push(paths.last())
        }
    }
}

/// The artifacts that are not nonempty regular files; `states` describes each of `paths`.
pub fn missing_artifacts(paths: &Vec<Vec<u8>>, states: &Vec<ArtifactState>) -> (missing: Vec<Vec<u8>>)
    requires
        paths@.len() == states@.len(),
    ensures
        byte_strings(missing@) == missing_of(byte_strings(paths@), states@),
{
    let ghost all = byte_strings(paths@);
    let mut missing: Vec<Vec<u8>> = Vec::new();
    let mut at: usize = 0;
    assert(byte_strings(missing@) =~= missing_of(all.take(0), states@.take(0)));
    while at < paths.len()
        invariant
            at <= paths@.len(),
            paths@.len() == states@.len(),
            all == byte_strings(paths@),
            byte_strings(missing@) == missing_of(all.take(at as int), states@.take(at as int)),
        decreases paths.len() - at,
    {
        proof {
            assert(all.take(at + 1).drop_last() =~= all.take(at as int));
            assert(states@.take(at + 1).take(at as int) =~= states@.take(at as int));
            assert(all.take(at + 1).last() == all[at as int]);
        }
        if !states[at].is_file || states[at].bytes == 0 {
            let ghost before = byte_strings(missing@);
            missing.push(copy_bytes(paths[at].as_slice()));
            assert(byte_strings(missing@) =~= before.push(all[at as int]));
        }
        at = at + 1;
    }
    assert(all.take(at as int) =~= all);
    assert(states@.take(at as int) =~= states@);
    missing
}

} // verus!

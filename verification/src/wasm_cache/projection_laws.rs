//! What the semantic projection of a workspace has to hold.

use vstd::prelude::*;
use vstd::string::*;
use vstd::utf8::encode_utf8;
use super::input_laws::stands_for;
use super::metadata::{
    package_index, package_of, PackageView, SemanticFieldView,
};
use super::projection::{
    closure_identities, dependency_before, dependency_fields, feature_fields, feature_names,
    identity_fields, identity_for, is_exact, locked_entries, locked_entry, locked_for, locked_of, node_for,
    node_id_violation, projected_dependencies, projected_dependency, projected_fields,
    projected_closure, projected_packages, projection_fields, semantic_value_fields, workspace_fields,
    DependencyProjectionView, IdentityView, LockedView, ProjectedView,
};
use crate::digest::{digest_of, Field};
use crate::document::{member_items, member_of, member_text, DocumentView, ShapeView};
use crate::order::{bytes_less, lemma_sorted_is_permutation, sorted_by, text_before};
use crate::paths::{is_within, parent_path, same_path, stripped};

verus! {

/// Whether a member of a document is a text.
pub open spec fn names_text(value: DocumentView, name: Seq<char>, text: Seq<char>) -> bool {
    member_of(value, name) matches Some(found) && found.shape == ShapeView::Text(text)
}

/// Whether a member of a document is a text, or missing.
pub open spec fn may_name_text(value: DocumentView, name: Seq<char>, text: Option<Seq<char>>) -> bool {
    match text {
        Some(found) => names_text(value, name, found),
        None => member_of(value, name) is None,
    }
}

/// A lockfile pins the packages that have a source, each with the name, the version, the source and
/// the checksum that stand in its table; one without a source is passed over.
pub proof fn lemma_locked_packages_are_read(value: DocumentView)
    ensures
        locked_entry(value) == Ok::<Option<LockedView>, Seq<char>>(None) <==> value.shape is Record
            && member_of(value, "source"@) is None,
        locked_entry(value) matches Ok(Some(package)) ==> {
            &&& value.shape is Record
            &&& names_text(value, "name"@, package.name)
            &&& names_text(value, "version"@, package.version)
            &&& names_text(value, "source"@, package.source)
            &&& may_name_text(value, "checksum"@, package.checksum)
        },
        locked_entry(value) is Ok <==> value.shape is Record && (member_of(value, "source"@) is None
            || ({
            &&& member_of(value, "source"@)->0.shape is Text
            &&& member_of(value, "name"@) matches Some(name) && name.shape is Text
            &&& member_of(value, "version"@) matches Some(version) && version.shape is Text
            &&& member_of(value, "checksum"@) matches Some(checksum) ==> checksum.shape is Text
        })),
{
}

/// No package that a lockfile pins is lost, and they stay in order.
pub proof fn lemma_no_locked_package_is_lost(values: Seq<DocumentView>)
    ensures
        locked_entries(values) is Ok <==> forall|i: int|
            0 <= i < values.len() ==> locked_entry(#[trigger] values[i]) is Ok,
        locked_entries(values) matches Ok(packages) ==> packages == values.filter(
            |value: DocumentView| member_of(value, "source"@) is Some,
        ).map_values(|value: DocumentView| locked_entry(value)->Ok_0->0),
    decreases values.len(),
{
    reveal(Seq::filter);
    let chosen = |value: DocumentView| member_of(value, "source"@) is Some;
    let read = |value: DocumentView| locked_entry(value)->Ok_0->0;
    if values.len() > 0 {
        let shorter = values.drop_last();
        lemma_no_locked_package_is_lost(shorter);
        lemma_locked_packages_are_read(values.last());
        assert(values[values.len() - 1] == values.last());
        assert forall|i: int| 0 <= i < shorter.len() implies #[trigger] shorter[i] == values[i] by {}
        if locked_entries(values) is Ok {
            assert forall|i: int| 0 <= i < values.len() implies locked_entry(#[trigger] values[i])
                is Ok by {
                if i < shorter.len() {
                    assert(locked_entry(shorter[i]) is Ok);
                }
            }
            if chosen(values.last()) {
                assert(shorter.filter(chosen).push(values.last()).map_values(read)
                    =~= shorter.filter(chosen).map_values(read).push(read(values.last())));
            }
        }
        if forall|i: int| 0 <= i < values.len() ==> locked_entry(#[trigger] values[i]) is Ok {
            assert forall|i: int| 0 <= i < shorter.len() implies locked_entry(#[trigger] shorter[i])
                is Ok by {
                assert(locked_entry(values[i]) is Ok);
            }
            assert(locked_entries(values) is Ok);
        }
    } else {
        assert(values.filter(chosen).map_values(read) =~= seq![]);
    }
}

/// Whether a locked package is of the name, the version and the source of a package.
pub open spec fn pins(locked: LockedView, package: PackageView) -> bool {
    &&& locked.name == package.name
    &&& locked.version == package.version
    &&& package.source == Some(locked.source)
}

/// Whether the locked package at this place is the first that pins a package.
pub open spec fn pins_first(locked: Seq<LockedView>, package: PackageView, at: int) -> bool {
    &&& 0 <= at < locked.len()
    &&& pins(locked[at], package)
    &&& forall|i: int| 0 <= i < at ==> !pins(#[trigger] locked[i], package)
}

proof fn lemma_locked_for(locked: Seq<LockedView>, package: PackageView, from: int)
    requires
        0 <= from <= locked.len(),
        forall|i: int| 0 <= i < from ==> !pins(#[trigger] locked[i], package),
    ensures
        match locked_for(locked, package, from) {
            Some(found) => exists|at: int| #[trigger]
                pins_first(locked, package, at) && found == locked[at],
            None => forall|i: int| 0 <= i < locked.len() ==> !pins(#[trigger] locked[i], package),
        },
    decreases locked.len() - from,
{
    if from < locked.len() {
        if pins(locked[from], package) {
            assert(pins_first(locked, package, from));
        } else {
            lemma_locked_for(locked, package, from + 1);
        }
    }
}

/// Whether a source that a lockfile pins leaves nothing open: one of a registry with a checksum, or
/// one of Git with a revision.
pub open spec fn leaves_nothing_open(locked: LockedView) -> bool {
    ||| locked.checksum is Some && locked.source.len() >= 9 && locked.source.take(9) == seq![
        'r',
        'e',
        'g',
        'i',
        's',
        't',
        'r',
        'y',
        '+',
    ]
    ||| locked.source.contains('#') && locked.source.len() >= 4 && locked.source.take(4) == seq![
        'g',
        'i',
        't',
        '+',
    ]
}

/// What pins an external package is exact in the two cases that leave nothing open.
pub proof fn lemma_exact_sources(locked: LockedView)
    ensures
        is_exact(locked) <==> leaves_nothing_open(locked),
{
    reveal_strlit("registry+");
    reveal_strlit("git+");
    let registry = seq!['r', 'e', 'g', 'i', 's', 't', 'r', 'y', '+'];
    let git = seq!['g', 'i', 't', '+'];
    assert("registry+"@ =~= registry);
    assert("git+"@ =~= git);
    assert(registry.is_prefix_of(locked.source) <==> locked.source.len() >= 9
        && locked.source.take(9) == registry) by {
        if registry.is_prefix_of(locked.source) {
            assert(locked.source.take(9) =~= registry);
        }
    }
    assert(git.is_prefix_of(locked.source) <==> locked.source.len() >= 4 && locked.source.take(4)
        == git) by {
        if git.is_prefix_of(locked.source) {
            assert(locked.source.take(4) =~= git);
        }
    }
}

/// A package has a checkout-independent identity exactly when it lies in the workspace, though not
/// at its root, or is external and pinned exactly. The identity holds its name and version, and
/// where it comes from.
pub proof fn lemma_identities_of_packages(
    package: PackageView,
    workspace_root: Seq<u8>,
    locked: Seq<LockedView>,
)
    ensures
        package.is_local ==> (identity_fields(package, workspace_root, locked) is Some <==> {
            &&& is_within(package.manifest_path, workspace_root)
            &&& parent_path(package.manifest_path) matches Some(root) && !same_path(
                root,
                workspace_root,
            )
        }),
        !package.is_local ==> (identity_fields(package, workspace_root, locked) is Some
            <==> exists|at: int| #[trigger]
            pins_first(locked, package, at) && leaves_nothing_open(locked[at])),
        identity_fields(package, workspace_root, locked) matches Some(fields) ==> {
            &&& fields.len() == if package.is_local {
                3int
            } else {
                5
            }
            &&& fields[0] == (Field { label: "name"@, value: encode_utf8(package.name) })
            &&& fields[1] == (Field { label: "version"@, value: encode_utf8(package.version) })
            &&& package.is_local ==> fields[2] == (Field {
                label: "local-manifest"@,
                value: stripped(package.manifest_path, workspace_root)->0,
            })
            &&& !package.is_local ==> {
                &&& fields[2] == (Field {
                    label: "external-package-id"@,
                    value: encode_utf8(package.id),
                })
                &&& fields[3] == (Field {
                    label: "external-source"@,
                    value: encode_utf8(package.source->0),
                })
                &&& fields[4].label == "external-checksum"@
                &&& exists|at: int| #[trigger]
                    pins_first(locked, package, at) && fields[4].value == match locked[at].checksum {
                        Some(text) => encode_utf8(text),
                        None => encode_utf8(seq![]),
                    }
            }
        },
{
    lemma_locked_for(locked, package, 0);
    if locked_for(locked, package, 0) is Some {
        let found = locked_for(locked, package, 0)->0;
        let at = choose|at: int| #[trigger] pins_first(locked, package, at) && found == locked[at];
        lemma_exact_sources(found);
        assert forall|other: int| #[trigger] pins_first(locked, package, other) implies other
            == at by {
            if other < at {
                assert(!pins(locked[other], package));
            } else if at < other {
                assert(!pins(locked[at], package));
            }
        }
    } else {
        assert forall|at: int| !#[trigger] pins_first(locked, package, at) by {
            if 0 <= at < locked.len() {
                assert(!pins(locked[at], package));
            }
        }
    }
}

/// The values that Cargo exposes to compilation are those of these names, in this order, as they
/// stand in the metadata.
pub proof fn lemma_compilation_sees_these_values(value: DocumentView)
    ensures
        package_of(value) matches Ok(package) ==> {
            let names = seq![
                "authors"@,
                "default_run"@,
                "description"@,
                "documentation"@,
                "edition"@,
                "homepage"@,
                "license"@,
                "license_file"@,
                "links"@,
                "metadata"@,
                "name"@,
                "readme"@,
                "repository"@,
                "rust_version"@,
                "version"@,
            ];
            &&& package.semantic_fields.len() == names.len()
            &&& forall|i: int|
                #![trigger package.semantic_fields[i]]
                0 <= i < names.len() ==> package.semantic_fields[i].name == names[i]
                    && package.semantic_fields[i].value == match member_of(value, names[i]) {
                    Some(found) => Some(found.rendered),
                    None => None,
                }
        },
{
}

/// Every exposed value of a package is hashed under its name, a missing one apart from a present
/// one.
pub proof fn lemma_exposed_values_are_hashed(fields: Seq<SemanticFieldView>)
    ensures
        semantic_value_fields(fields).len() == 2 * fields.len(),
        forall|i: int|
            #![trigger fields[i]]
            0 <= i < fields.len() ==> {
                &&& semantic_value_fields(fields)[2 * i] == (Field {
                    label: "package-field-name"@,
                    value: encode_utf8(fields[i].name),
                })
                &&& fields[i].value matches Some(text) ==> semantic_value_fields(fields)[2 * i + 1]
                    == (Field { label: "package-field-value"@, value: encode_utf8(text) })
                &&& fields[i].value is None ==> semantic_value_fields(fields)[2 * i + 1] == (Field {
                    label: "package-field-missing"@,
                    value: seq![],
                })
            },
    decreases fields.len(),
{
    if fields.len() > 0 {
        let shorter = fields.drop_last();
        lemma_exposed_values_are_hashed(shorter);
        assert forall|i: int| #![trigger fields[i]] 0 <= i < fields.len() implies {
            &&& semantic_value_fields(fields)[2 * i] == (Field {
                label: "package-field-name"@,
                value: encode_utf8(fields[i].name),
            })
            &&& fields[i].value matches Some(text) ==> semantic_value_fields(fields)[2 * i + 1] == (
            Field { label: "package-field-value"@, value: encode_utf8(text) })
            &&& fields[i].value is None ==> semantic_value_fields(fields)[2 * i + 1] == (Field {
                label: "package-field-missing"@,
                value: seq![],
            })
        } by {
            if i < shorter.len() {
                assert(shorter[i] == fields[i]);
            }
        }
    }
}

/// Every dependency is hashed with its name, the identity of its package and its kinds.
pub proof fn lemma_dependencies_are_hashed(dependencies: Seq<DependencyProjectionView>)
    ensures
        dependency_fields(dependencies).len() == 3 * dependencies.len(),
        forall|i: int|
            #![trigger dependencies[i]]
            0 <= i < dependencies.len() ==> {
                &&& dependency_fields(dependencies)[3 * i] == (Field {
                    label: "dependency-name"@,
                    value: encode_utf8(dependencies[i].name),
                })
                &&& dependency_fields(dependencies)[3 * i + 1] == (Field {
                    label: "dependency-identity"@,
                    value: dependencies[i].identity,
                })
                &&& dependency_fields(dependencies)[3 * i + 2] == (Field {
                    label: "dependency-kinds"@,
                    value: encode_utf8(dependencies[i].kinds),
                })
            },
    decreases dependencies.len(),
{
    if dependencies.len() > 0 {
        let shorter = dependencies.drop_last();
        lemma_dependencies_are_hashed(shorter);
        assert forall|i: int| #![trigger dependencies[i]] 0 <= i < dependencies.len() implies {
            &&& dependency_fields(dependencies)[3 * i] == (Field {
                label: "dependency-name"@,
                value: encode_utf8(dependencies[i].name),
            })
            &&& dependency_fields(dependencies)[3 * i + 1] == (Field {
                label: "dependency-identity"@,
                value: dependencies[i].identity,
            })
            &&& dependency_fields(dependencies)[3 * i + 2] == (Field {
                label: "dependency-kinds"@,
                value: encode_utf8(dependencies[i].kinds),
            })
        } by {
            if i < shorter.len() {
                assert(shorter[i] == dependencies[i]);
            }
        }
    }
}

/// Every projected package is hashed with its identity and its projection.
pub proof fn lemma_projected_packages_are_hashed(packages: Seq<ProjectedView>)
    ensures
        projected_fields(packages).len() == 2 * packages.len(),
        forall|i: int|
            #![trigger packages[i]]
            0 <= i < packages.len() ==> {
                &&& projected_fields(packages)[2 * i] == (Field {
                    label: "package-identity"@,
                    value: packages[i].identity,
                })
                &&& projected_fields(packages)[2 * i + 1] == (Field {
                    label: "package-projection"@,
                    value: packages[i].projection,
                })
            },
    decreases packages.len(),
{
    if packages.len() > 0 {
        let shorter = packages.drop_last();
        lemma_projected_packages_are_hashed(shorter);
        assert forall|i: int| #![trigger packages[i]] 0 <= i < packages.len() implies {
            &&& projected_fields(packages)[2 * i] == (Field {
                label: "package-identity"@,
                value: packages[i].identity,
            })
            &&& projected_fields(packages)[2 * i + 1] == (Field {
                label: "package-projection"@,
                value: packages[i].projection,
            })
        } by {
            if i < shorter.len() {
                assert(shorter[i] == packages[i]);
            }
        }
    }
}

/// The identity that stands first for a package is the one that counts.
pub open spec fn identifies(
    identities: Seq<IdentityView>,
    id: Seq<char>,
    digest: Seq<u8>,
    at: int,
) -> bool {
    &&& 0 <= at < identities.len()
    &&& identities[at].id == id
    &&& identities[at].digest == digest
    &&& forall|i: int| 0 <= i < at ==> (#[trigger] identities[i]).id != id
}

/// Whether an identity stands for a package.
pub open spec fn is_identified(identities: Seq<IdentityView>, id: Seq<char>, digest: Seq<u8>) -> bool {
    exists|at: int| #[trigger] identifies(identities, id, digest, at)
}

proof fn lemma_identity_for(identities: Seq<IdentityView>, id: Seq<char>, from: int)
    requires
        0 <= from <= identities.len(),
        forall|i: int| 0 <= i < from ==> (#[trigger] identities[i]).id != id,
    ensures
        identity_for(identities, id, from) is Some ==> is_identified(
            identities,
            id,
            identity_for(identities, id, from)->0,
        ),
        identity_for(identities, id, from) is None ==> forall|i: int|
            0 <= i < identities.len() ==> (#[trigger] identities[i]).id != id,
    decreases identities.len() - from,
{
    if from < identities.len() {
        if identities[from].id == id {
            assert(identifies(identities, id, identities[from].digest, from));
        } else {
            lemma_identity_for(identities, id, from + 1);
        }
    }
}

/// A dependency is projected with the name under which it is used, the identity of its package and
/// its kinds as they are written; one on a package without an identity is refused.
pub proof fn lemma_dependencies_are_projected(value: DocumentView, identities: Seq<IdentityView>)
    ensures
        projected_dependency(value, identities) matches Ok(found) ==> {
            &&& names_text(value, "name"@, found.name)
            &&& member_of(value, "pkg"@) matches Some(package) && package.shape is Text
            &&& is_identified(
                identities,
                member_of(value, "pkg"@)->0.shape->Text_0,
                found.identity,
            )
            &&& member_of(value, "dep_kinds"@) matches Some(kinds) && kinds.rendered == found.kinds
        },
        projected_dependency(value, identities) is Ok <==> {
            &&& member_of(value, "name"@) matches Some(name) && name.shape is Text
            &&& member_of(value, "pkg"@) matches Some(package) && (package.shape matches ShapeView::Text(
                id,
            ) && exists|i: int| 0 <= i < identities.len() && (#[trigger] identities[i]).id == id)
            &&& member_of(value, "dep_kinds"@) is Some
        },
{
    if member_text(value, "pkg"@) is Some {
        let id = member_text(value, "pkg"@)->0;
        lemma_identity_for(identities, id, 0);
        if identity_for(identities, id, 0) is Some {
            let digest = identity_for(identities, id, 0)->0;
            let at = choose|at: int| #[trigger] identifies(identities, id, digest, at);
            assert(identities[at].id == id);
        }
    }
}

/// No dependency of a package is lost, and none of its features.
pub proof fn lemma_no_dependency_is_lost(values: Seq<DocumentView>, identities: Seq<IdentityView>)
    ensures
        projected_dependencies(values, identities) matches Ok(found) ==> {
            &&& found.len() == values.len()
            &&& forall|i: int|
                #![trigger found[i]]
                0 <= i < values.len() ==> projected_dependency(values[i], identities) == Ok::<
                    DependencyProjectionView,
                    Seq<char>,
                >(found[i])
        },
        feature_names(values) matches Ok(names) ==> {
            &&& names.len() == values.len()
            &&& forall|i: int|
                #![trigger names[i]]
                0 <= i < values.len() ==> values[i].shape == ShapeView::Text(names[i])
        },
    decreases values.len(),
{
    if values.len() > 0 {
        lemma_no_dependency_is_lost(values.drop_last(), identities);
    }
}

/// What is hashed of a package are its exposed values, all its enabled features and all its
/// dependencies, whatever the order in which the metadata list them.
pub proof fn lemma_projection_is_complete(
    package: PackageView,
    node: DocumentView,
    identities: Seq<IdentityView>,
)
    ensures
        projection_fields(package, node, identities) matches Ok(fields) ==> {
            let features = member_items(node, "features"@)->0;
            let deps = member_items(node, "deps"@)->0;
            let names = feature_names(features)->Ok_0;
            let dependencies = projected_dependencies(deps, identities)->Ok_0;
            &&& member_items(node, "features"@) is Some
            &&& member_items(node, "deps"@) is Some
            &&& feature_names(features) is Ok
            &&& projected_dependencies(deps, identities) is Ok
            &&& fields.len() == 2 * package.semantic_fields.len() + names.len() + 3
                * dependencies.len()
            &&& fields.take(2 * package.semantic_fields.len() as int) == semantic_value_fields(
                package.semantic_fields,
            )
            &&& exists|ordered: Seq<Seq<char>>, sorted: Seq<DependencyProjectionView>| #[trigger]
                ordered.to_multiset() == names.to_multiset() && #[trigger] sorted.to_multiset()
                    == dependencies.to_multiset() && fields.skip(
                    2 * package.semantic_fields.len() as int,
                ) == ordered.map_values(
                    |name: Seq<char>|
                        Field { label: "enabled-feature"@, value: encode_utf8(name) },
                ) + dependency_fields(sorted)
        },
{
    if projection_fields(package, node, identities) is Ok {
        let fields = projection_fields(package, node, identities)->Ok_0;
        let names = feature_names(member_items(node, "features"@)->0)->Ok_0;
        let dependencies = projected_dependencies(
            member_items(node, "deps"@)->0,
            identities,
        )->Ok_0;
        let ordered = sorted_by(names, text_before());
        let sorted = sorted_by(dependencies, dependency_before());
        lemma_sorted_is_permutation(names, text_before());
        lemma_sorted_is_permutation(dependencies, dependency_before());
        lemma_exposed_values_are_hashed(package.semantic_fields);
        lemma_dependencies_are_hashed(sorted);
        let head = semantic_value_fields(package.semantic_fields);
        let middle = ordered.map_values(
            |name: Seq<char>| Field { label: "enabled-feature"@, value: encode_utf8(name) },
        );
        assert(feature_fields(ordered) =~= middle);
        assert(fields.take(head.len() as int) =~= head);
        assert(fields.skip(head.len() as int) =~= middle + dependency_fields(sorted));
        assert(ordered.to_multiset() == names.to_multiset());
        assert(sorted.to_multiset() == dependencies.to_multiset());
    }
}

/// Dependencies stand in the order of their names, then of their identities, then of their kinds.
pub proof fn lemma_order_of_dependencies(
    left: DependencyProjectionView,
    right: DependencyProjectionView,
)
    ensures
        left.name != right.name ==> (dependency_before()(left, right) <==> bytes_less(
            encode_utf8(left.name),
            encode_utf8(right.name),
        )),
        left.name == right.name && left.identity != right.identity ==> (dependency_before()(
            left,
            right,
        ) <==> bytes_less(left.identity, right.identity)),
        left.name == right.name && left.identity == right.identity ==> (dependency_before()(
            left,
            right,
        ) <==> bytes_less(encode_utf8(left.kinds), encode_utf8(right.kinds))),
{
}

proof fn lemma_index(packages: Seq<PackageView>, id: Seq<char>, from: int)
    requires
        0 <= from <= packages.len(),
        forall|k: int| 0 <= k < from ==> (#[trigger] packages[k]).id != id,
    ensures
        package_index(packages, id, from) matches Some(at) ==> stands_for(packages, id, at),
        package_index(packages, id, from) is None ==> forall|k: int|
            0 <= k < packages.len() ==> (#[trigger] packages[k]).id != id,
    decreases packages.len() - from,
{
    if from < packages.len() && packages[from].id != id {
        lemma_index(packages, id, from + 1);
    }
}

/// Whether an identity is that of the package which an id of the closure stands for.
pub open spec fn is_identity_of(
    identity: IdentityView,
    id: Seq<char>,
    packages: Seq<PackageView>,
    workspace_root: Seq<u8>,
    locked: Seq<LockedView>,
) -> bool {
    &&& identity.id == id
    &&& exists|at: int| #[trigger]
        stands_for(packages, id, at) && (identity_fields(packages[at], workspace_root, locked) matches Some(
            fields,
        ) && identity.digest == digest_of("wasm-semantic-package-identity-v1"@, fields))
}

/// Every package of the closure gets its own identity, in order, or none gets one.
pub proof fn lemma_every_package_is_identified(
    ids: Seq<Seq<char>>,
    packages: Seq<PackageView>,
    workspace_root: Seq<u8>,
    locked: Seq<LockedView>,
)
    ensures
        closure_identities(ids, packages, workspace_root, locked) matches Ok(Some(identities)) ==> {
            &&& identities.len() == ids.len()
            &&& forall|i: int|
                #![trigger identities[i]]
                0 <= i < ids.len() ==> is_identity_of(
                    identities[i],
                    ids[i],
                    packages,
                    workspace_root,
                    locked,
                )
        },
    decreases ids.len(),
{
    if ids.len() > 0 {
        let shorter = ids.drop_last();
        lemma_every_package_is_identified(shorter, packages, workspace_root, locked);
        lemma_index(packages, ids.last(), 0);
        let all = closure_identities(ids, packages, workspace_root, locked);
        if all is Ok && all->Ok_0 is Some {
            let identities = all->Ok_0->0;
            let before = closure_identities(shorter, packages, workspace_root, locked)->Ok_0->0;
            assert forall|i: int| #![trigger identities[i]] 0 <= i < ids.len() implies is_identity_of(
                identities[i],
                ids[i],
                packages,
                workspace_root,
                locked,
            ) by {
                if i < shorter.len() {
                    assert(identities[i] == before[i]);
                    assert(ids[i] == shorter[i]);
                } else {
                    let at = package_index(packages, ids.last(), 0)->0;
                    assert(stands_for(packages, ids.last(), at));
                }
            }
        }
    }
}

/// Whether the node at this place is the last that tells of a package.
pub open spec fn tells_last(nodes: Seq<DocumentView>, id: Seq<char>, at: int) -> bool {
    &&& 0 <= at < nodes.len()
    &&& names_text(nodes[at], "id"@, id)
    &&& forall|i: int| at < i < nodes.len() ==> !names_text(#[trigger] nodes[i], "id"@, id)
}

proof fn lemma_node_for(nodes: Seq<DocumentView>, id: Seq<char>, upto: int)
    requires
        0 <= upto <= nodes.len(),
        forall|i: int| upto <= i < nodes.len() ==> !names_text(#[trigger] nodes[i], "id"@, id),
    ensures
        match node_for(nodes, id, upto) {
            Some(node) => exists|at: int| #[trigger] tells_last(nodes, id, at) && node == nodes[at],
            None => forall|i: int|
                0 <= i < nodes.len() ==> !names_text(#[trigger] nodes[i], "id"@, id),
        },
    decreases upto,
{
    if upto > 0 {
        if member_text(nodes[upto - 1], "id"@) == Some(id) {
            assert(tells_last(nodes, id, upto - 1));
        } else {
            assert(!names_text(nodes[upto - 1], "id"@, id));
            lemma_node_for(nodes, id, upto - 1);
        }
    }
}

/// Metadata are refused for a dependency node without an identity.
pub proof fn lemma_nodes_have_identities(nodes: Seq<DocumentView>)
    ensures
        node_id_violation(nodes) is None <==> forall|i: int|
            0 <= i < nodes.len() ==> member_of(#[trigger] nodes[i], "id"@) is Some && member_of(
                nodes[i],
                "id"@,
            )->0.shape is Text,
    decreases nodes.len(),
{
    if nodes.len() > 0 {
        let shorter = nodes.drop_last();
        lemma_nodes_have_identities(shorter);
        assert(nodes[nodes.len() - 1] == nodes.last());
        assert forall|i: int| 0 <= i < shorter.len() implies #[trigger] shorter[i] == nodes[i] by {}
        if node_id_violation(nodes) is None {
            assert forall|i: int| 0 <= i < nodes.len() implies member_of(#[trigger] nodes[i], "id"@)
                is Some && member_of(nodes[i], "id"@)->0.shape is Text by {
                if i < shorter.len() {
                    assert(member_of(shorter[i], "id"@) is Some);
                }
            }
        } else if node_id_violation(shorter) is Some {
            let at = choose|i: int|
                0 <= i < shorter.len() && !(member_of(#[trigger] shorter[i], "id"@) is Some
                    && member_of(shorter[i], "id"@)->0.shape is Text);
            assert(nodes[at] == shorter[at]);
        }
    }
}

/// Whether a package is projected from its own package entry and its own dependency node.
pub open spec fn is_projection_of(
    projected: ProjectedView,
    identity: IdentityView,
    packages: Seq<PackageView>,
    nodes: Seq<DocumentView>,
    identities: Seq<IdentityView>,
    at: int,
    node: int,
) -> bool {
    &&& projected.identity == identity.digest
    &&& stands_for(packages, identity.id, at)
    &&& tells_last(nodes, identity.id, node)
    &&& projection_fields(packages[at], nodes[node], identities) matches Ok(fields)
        && projected.projection == digest_of("wasm-semantic-package-projection-v1"@, fields)
}

/// Whether a package is projected from some package entry and dependency node of its own.
pub open spec fn is_projected(
    projected: ProjectedView,
    identity: IdentityView,
    packages: Seq<PackageView>,
    nodes: Seq<DocumentView>,
    identities: Seq<IdentityView>,
) -> bool {
    exists|at: int, node: int| #[trigger]
        is_projection_of(projected, identity, packages, nodes, identities, at, node)
}

/// Every identified package is projected, in order, from what the metadata say of it.
pub proof fn lemma_every_package_is_projected(
    upto: int,
    packages: Seq<PackageView>,
    nodes: Seq<DocumentView>,
    identities: Seq<IdentityView>,
)
    requires
        0 <= upto <= identities.len(),
        forall|i: int|
            0 <= i < identities.len() ==> package_index(
                packages,
                (#[trigger] identities[i]).id,
                0,
            ) is Some,
    ensures
        projected_packages(upto, packages, nodes, identities) matches Ok(projected) ==> {
            &&& projected.len() == upto
            &&& forall|i: int|
                #![trigger projected[i]]
                0 <= i < upto ==> is_projected(
                    projected[i],
                    identities[i],
                    packages,
                    nodes,
                    identities,
                )
        },
    decreases upto,
{
    if upto > 0 {
        lemma_every_package_is_projected(upto - 1, packages, nodes, identities);
        let identity = identities[upto - 1];
        lemma_index(packages, identity.id, 0);
        lemma_node_for(nodes, identity.id, nodes.len() as int);
        if projected_packages(upto, packages, nodes, identities) is Ok {
            let projected = projected_packages(upto, packages, nodes, identities)->Ok_0;
            let before = projected_packages(upto - 1, packages, nodes, identities)->Ok_0;
            let at = package_index(packages, identity.id, 0)->0;
            let found = node_for(nodes, identity.id, nodes.len() as int)->0;
            let node = choose|node: int| #[trigger]
                tells_last(nodes, identity.id, node) && found == nodes[node];
            assert(is_projection_of(
                projected[upto - 1],
                identity,
                packages,
                nodes,
                identities,
                at,
                node,
            ));
            assert forall|i: int| #![trigger projected[i]] 0 <= i < upto implies is_projected(
                projected[i],
                identities[i],
                packages,
                nodes,
                identities,
            ) by {
                if i < upto - 1 {
                    assert(projected[i] == before[i]);
                }
            }
        }
    }
}

/// Whether the package that an id stands for has an identity.
pub open spec fn has_identity(
    id: Seq<char>,
    packages: Seq<PackageView>,
    workspace_root: Seq<u8>,
    locked: Seq<LockedView>,
) -> bool {
    exists|at: int| #[trigger]
        stands_for(packages, id, at) && identity_fields(packages[at], workspace_root, locked)
            is Some
}

/// A closure is identified exactly when each of its packages can be.
pub proof fn lemma_closure_is_identified(
    ids: Seq<Seq<char>>,
    packages: Seq<PackageView>,
    workspace_root: Seq<u8>,
    locked: Seq<LockedView>,
)
    ensures
        closure_identities(ids, packages, workspace_root, locked) matches Ok(Some(_)) <==> forall|
            i: int,
        |
            0 <= i < ids.len() ==> has_identity(
                #[trigger] ids[i],
                packages,
                workspace_root,
                locked,
            ),
    decreases ids.len(),
{
    if ids.len() > 0 {
        let shorter = ids.drop_last();
        lemma_closure_is_identified(shorter, packages, workspace_root, locked);
        assert forall|i: int| 0 <= i < shorter.len() implies #[trigger] shorter[i] == ids[i] by {}
        assert(ids[ids.len() - 1] == ids.last());
        lemma_index(packages, ids.last(), 0);
        let found = package_index(packages, ids.last(), 0);
        assert(has_identity(ids.last(), packages, workspace_root, locked) <==> found is Some
            && identity_fields(packages[found->0], workspace_root, locked) is Some) by {
            if has_identity(ids.last(), packages, workspace_root, locked) {
                let at = choose|at: int| #[trigger]
                    stands_for(packages, ids.last(), at) && identity_fields(
                        packages[at],
                        workspace_root,
                        locked,
                    ) is Some;
                if found is None {
                    assert(packages[at].id != ids.last());
                } else if found->0 < at {
                    assert(packages[found->0].id != ids.last());
                } else if at < found->0 {
                    assert(packages[at].id != ids.last());
                }
            }
        }
        let all = closure_identities(ids, packages, workspace_root, locked);
        if all is Ok && all->Ok_0 is Some {
            assert forall|i: int| 0 <= i < ids.len() implies has_identity(
                #[trigger] ids[i],
                packages,
                workspace_root,
                locked,
            ) by {
                if i < shorter.len() {
                    assert(has_identity(shorter[i], packages, workspace_root, locked));
                }
            }
        }
        if forall|i: int|
            0 <= i < ids.len() ==> has_identity(
                #[trigger] ids[i],
                packages,
                workspace_root,
                locked,
            ) {
            assert forall|i: int| 0 <= i < shorter.len() implies has_identity(
                #[trigger] shorter[i],
                packages,
                workspace_root,
                locked,
            ) by {
                assert(has_identity(ids[i], packages, workspace_root, locked));
            }
            assert(has_identity(ids[ids.len() - 1], packages, workspace_root, locked));
        }
    }
}

/// Dependencies are projected exactly when each of them can be, and features are read exactly when
/// each of them is a text.
pub proof fn lemma_accepted_dependencies(values: Seq<DocumentView>, identities: Seq<IdentityView>)
    ensures
        projected_dependencies(values, identities) is Ok <==> forall|i: int|
            0 <= i < values.len() ==> projected_dependency(#[trigger] values[i], identities) is Ok,
        feature_names(values) is Ok <==> forall|i: int|
            0 <= i < values.len() ==> (#[trigger] values[i]).shape is Text,
    decreases values.len(),
{
    if values.len() > 0 {
        let shorter = values.drop_last();
        lemma_accepted_dependencies(shorter, identities);
        assert forall|i: int| 0 <= i < shorter.len() implies #[trigger] shorter[i] == values[i] by {}
        assert(values[values.len() - 1] == values.last());
        if projected_dependencies(values, identities) is Ok {
            assert forall|i: int| 0 <= i < values.len() implies projected_dependency(
                #[trigger] values[i],
                identities,
            ) is Ok by {
                if i < shorter.len() {
                    assert(projected_dependency(shorter[i], identities) is Ok);
                }
            }
        } else if projected_dependencies(shorter, identities) is Err {
            let at = choose|i: int|
                0 <= i < shorter.len() && projected_dependency(#[trigger] shorter[i], identities)
                    is Err;
            assert(projected_dependency(values[at], identities) is Err);
        }
        if feature_names(values) is Ok {
            assert forall|i: int| 0 <= i < values.len() implies (#[trigger] values[i]).shape
                is Text by {
                if i < shorter.len() {
                    assert(shorter[i].shape is Text);
                }
            }
        } else if feature_names(shorter) is Err {
            let at = choose|i: int| 0 <= i < shorter.len() && !((#[trigger] shorter[i]).shape is Text);
            assert(!(values[at].shape is Text));
        }
    }
}

/// Packages are projected exactly when each has a dependency node whose features and dependencies
/// can be read.
pub proof fn lemma_accepted_packages(
    package: PackageView,
    node: DocumentView,
    identities: Seq<IdentityView>,
)
    ensures
        projection_fields(package, node, identities) is Ok <==> {
            &&& member_items(node, "features"@) matches Some(features) && feature_names(features)
                is Ok
            &&& member_items(node, "deps"@) matches Some(deps) && projected_dependencies(
                deps,
                identities,
            ) is Ok
        },
{
}

/// A setting of the workspace is hashed under its name, a missing one apart from a present one.
pub open spec fn is_setting(
    fields: Seq<Field>,
    at: int,
    label: Seq<char>,
    value: Option<DocumentView>,
) -> bool {
    &&& fields[at] == (Field { label: "workspace-setting-name"@, value: encode_utf8(label) })
    &&& value matches Some(found) ==> fields[at + 1] == (Field {
        label: "workspace-setting-value"@,
        value: encode_utf8(found.rendered),
    })
    &&& value is None ==> fields[at + 1] == (Field {
        label: "workspace-setting-missing"@,
        value: seq![],
    })
}

/// What is hashed of a workspace are all its projected packages and four settings of its manifest:
/// the Cargo features, the profiles, the resolver and the lints.
pub proof fn lemma_workspace_projection_is_complete(
    projected: Seq<ProjectedView>,
    manifest: DocumentView,
)
    ensures
        ({
            let fields = workspace_fields(projected, manifest);
            let count = 2 * projected.len() as int;
            let table = member_of(manifest, "workspace"@);
            &&& fields.len() == count + 8
            &&& exists|sorted: Seq<ProjectedView>| #[trigger]
                sorted.to_multiset() == projected.to_multiset() && fields.take(count)
                    == projected_fields(sorted)
            &&& is_setting(
                fields,
                count,
                "cargo-features"@,
                member_of(manifest, "cargo-features"@),
            )
            &&& is_setting(fields, count + 2, "profile"@, member_of(manifest, "profile"@))
            &&& is_setting(
                fields,
                count + 4,
                "workspace-resolver"@,
                if table is Some {
                    member_of(table->0, "resolver"@)
                } else {
                    None
                },
            )
            &&& is_setting(
                fields,
                count + 6,
                "workspace-lints"@,
                if table is Some {
                    member_of(table->0, "lints"@)
                } else {
                    None
                },
            )
        }),
{
    let before = super::projection::projected_before();
    let sorted = sorted_by(projected, before);
    lemma_sorted_is_permutation(projected, before);
    lemma_projected_packages_are_hashed(sorted);
    let fields = workspace_fields(projected, manifest);
    let count = 2 * projected.len() as int;
    assert(fields.take(count) =~= projected_fields(sorted));
    assert(sorted.to_multiset() == projected.to_multiset());
}

/// A lockfile without packages pins nothing; any other pins what its packages say.
pub proof fn lemma_lockfiles(lock: DocumentView)
    ensures
        member_items(lock, "package"@) is None ==> locked_of(lock) == Ok::<
            Seq<LockedView>,
            Seq<char>,
        >(seq![]),
        member_items(lock, "package"@) matches Some(values) ==> locked_of(lock) == locked_entries(
            values,
        ),
{
}

/// A closure is not projected where one of its packages has no identity; where it is, every one of
/// its packages is, from the nodes of the metadata.
pub proof fn lemma_projected_closures(
    metadata: DocumentView,
    packages: Seq<PackageView>,
    closure: Seq<Seq<char>>,
    workspace_root: Seq<u8>,
    locked: Seq<LockedView>,
)
    ensures
        projected_closure(metadata, packages, closure, workspace_root, locked) == Ok::<
            Option<Seq<ProjectedView>>,
            Seq<char>,
        >(None) <==> closure_identities(closure, packages, workspace_root, locked) == Ok::<
            Option<Seq<IdentityView>>,
            Seq<char>,
        >(None),
        projected_closure(metadata, packages, closure, workspace_root, locked) matches Ok(
            Some(projected),
        ) ==> {
            let identities = closure_identities(
                closure,
                packages,
                workspace_root,
                locked,
            )->Ok_0->0;
            let nodes = member_items(member_of(metadata, "resolve"@)->0, "nodes"@)->0;
            &&& projected.len() == closure.len()
            &&& node_id_violation(nodes) is None
            &&& forall|i: int|
                #![trigger projected[i]]
                0 <= i < closure.len() ==> identities[i].id == closure[i] && is_projected(
                    projected[i],
                    identities[i],
                    packages,
                    nodes,
                    identities,
                )
        },
{
    let found = closure_identities(closure, packages, workspace_root, locked);
    let result = projected_closure(metadata, packages, closure, workspace_root, locked);
    if result is Ok && result->Ok_0 is Some {
        let identities = found->Ok_0->0;
        let nodes = member_items(member_of(metadata, "resolve"@)->0, "nodes"@)->0;
        lemma_every_package_is_identified(closure, packages, workspace_root, locked);
        assert forall|i: int| 0 <= i < identities.len() implies package_index(
            packages,
            (#[trigger] identities[i]).id,
            0,
        ) is Some by {
            assert(is_identity_of(identities[i], closure[i], packages, workspace_root, locked));
            let at = choose|at: int| #[trigger]
                stands_for(packages, closure[i], at) && (identity_fields(
                    packages[at],
                    workspace_root,
                    locked,
                ) matches Some(fields) && identities[i].digest == digest_of(
                    "wasm-semantic-package-identity-v1"@,
                    fields,
                ));
            lemma_index(packages, closure[i], 0);
            assert(packages[at].id == closure[i]);
        }
        lemma_every_package_is_projected(identities.len() as int, packages, nodes, identities);
    }
}

} // verus!

//! What Cargo configuration and Cargo commands have to say.

use vstd::prelude::*;
use vstd::string::*;
use vstd::utf8::encode_utf8;
use super::command::package_arguments;
use super::config::{
    cargo_home_of, child_value, configuration_directories, configuration_label, from_invocation,
    named_references, reference_of, references_in, references_of, resolved_references,
    ReferenceView,
};
use super::spec::WasmBuildSpecView;
use crate::digest::{digest_of, hex, Field};
use crate::document::{member_of, DocumentView, ShapeView};
use crate::path_laws::lemma_parent_drops_the_last_component;
use crate::paths::{components, is_within, joined, parent_path, stripped};
use crate::settings::{setting_of, SettingView};

verus! {

/// A child command sees what a build sets; a name that the build does not set, or only takes away,
/// it finds as it is found around the build.
pub proof fn lemma_child_values(
    spec: WasmBuildSpecView,
    ambient: Seq<SettingView>,
    name: Seq<u8>,
    value: Seq<u8>,
)
    ensures
        setting_of(spec.extra_env, name) == Some(Some(value)) ==> child_value(spec, ambient, name)
            == Some(value),
        setting_of(spec.extra_env, name) is None || setting_of(spec.extra_env, name)->0 is None ==> (
        child_value(spec, ambient, name) == Some(value) <==> setting_of(ambient, name) == Some(
            Some(value),
        )),
{
}

/// The home of Cargo is the directory that `CARGO_HOME` names, or else `.cargo` in the home
/// directory; a relative one lies below the directory from which the build is invoked.
pub proof fn lemma_home_of_cargo(
    spec: WasmBuildSpecView,
    ambient: Seq<SettingView>,
    invocation_root: Seq<u8>,
    path: Seq<u8>,
)
    ensures
        ({
            let named = child_value(spec, ambient, encode_utf8("CARGO_HOME"@));
            let home = child_value(spec, ambient, encode_utf8("HOME"@));
            let found = cargo_home_of(spec, ambient, invocation_root);
            &&& named is Some ==> found == Some(from_invocation(invocation_root, named->0))
            &&& named is None && home is Some ==> found == Some(
                joined(from_invocation(invocation_root, home->0), encode_utf8(".cargo"@)),
            )
            &&& found is None <==> named is None && home is None
        }),
        path.len() > 0 && path[0] == 47 ==> from_invocation(invocation_root, path) == path,
        path.len() == 0 || path[0] != 47 ==> from_invocation(invocation_root, path) == joined(
            invocation_root,
            path,
        ),
{
}

/// A configuration file of the workspace is labeled by its place in it, any other one is told to be
/// external.
pub proof fn lemma_labels_of_configuration(config: Seq<u8>, workspace_root: Seq<u8>)
    ensures
        is_within(config, workspace_root) ==> configuration_label(config, workspace_root) == joined(
            encode_utf8("cargo-config/workspace"@),
            stripped(config, workspace_root)->0,
        ),
        !is_within(config, workspace_root) ==> configuration_label(config, workspace_root)
            == joined(
            encode_utf8("cargo-config/external"@),
            encode_utf8(
                hex(
                    digest_of(
                        "cargo-config-location-v1"@,
                        seq![(Field { label: "content"@, value: config })],
                    ),
                ),
            ),
        ),
{
}

/// Whether a member of a document is a truth value.
pub open spec fn names_flag(value: DocumentView, name: Seq<char>, flag: bool) -> bool {
    member_of(value, name) matches Some(found) && found.shape == ShapeView::Flag(flag)
}

/// A file is named by a text, or by a table with a path that may say whether the file is optional;
/// nothing else names one, and one that is not said to be optional is not.
pub proof fn lemma_named_files(value: DocumentView)
    ensures
        value.shape matches ShapeView::Text(text) ==> reference_of(value) == Ok::<
            ReferenceView,
            Seq<char>,
        >(ReferenceView { path: encode_utf8(text), optional: false }),
        reference_of(value) matches Ok(reference) ==> value.shape is Text || (value.shape is Record
            && {
            &&& member_of(value, "path"@) matches Some(path) && (path.shape matches ShapeView::Text(
                text,
            ) && reference.path == encode_utf8(text))
            &&& reference.optional ==> names_flag(value, "optional"@, true)
            &&& !reference.optional ==> member_of(value, "optional"@) is None || names_flag(
                value,
                "optional"@,
                false,
            )
        }),
        reference_of(value) is Ok <==> value.shape is Text || (value.shape is Record && {
            &&& member_of(value, "path"@) matches Some(path) && path.shape is Text
            &&& member_of(value, "optional"@) matches Some(flag) ==> flag.shape is Flag
        }),
{
}

proof fn lemma_references_one_by_one(values: Seq<DocumentView>)
    ensures
        references_of(values) is Ok <==> forall|i: int|
            0 <= i < values.len() ==> reference_of(#[trigger] values[i]) is Ok,
        references_of(values) matches Ok(references) ==> {
            &&& references.len() == values.len()
            &&& forall|i: int|
                #![trigger references[i]]
                0 <= i < values.len() ==> reference_of(values[i]) == Ok::<
                    ReferenceView,
                    Seq<char>,
                >(references[i])
        },
    decreases values.len(),
{
    if values.len() > 0 {
        let shorter = values.drop_last();
        lemma_references_one_by_one(shorter);
        assert forall|i: int| 0 <= i < shorter.len() implies #[trigger] shorter[i] == values[i] by {}
        assert(values[values.len() - 1] == values.last());
        if references_of(values) is Ok {
            assert forall|i: int| 0 <= i < values.len() implies reference_of(#[trigger] values[i])
                is Ok by {
                if i < shorter.len() {
                    assert(reference_of(shorter[i]) is Ok);
                }
            }
        } else if references_of(shorter) is Err {
            let at = choose|i: int|
                0 <= i < shorter.len() && reference_of(#[trigger] shorter[i]) is Err;
            assert(reference_of(values[at]) is Err);
        }
    }
}

/// Every file that a configuration includes is read, in order, whether it is named alone or in a
/// list; a relative one lies in the directory of the configuration that names it.
pub proof fn lemma_no_named_file_is_lost(
    canonical: Seq<u8>,
    document: DocumentView,
    entry: DocumentView,
    directory: Seq<u8>,
)
    requires
        member_of(document, "include"@) == Some(entry),
        parent_path(canonical) == Some(directory),
    ensures
        named_references(canonical, document) matches Ok(references) ==> {
            let values = match entry.shape {
                ShapeView::List(items) => items,
                _ => seq![entry],
            };
            &&& references.len() == values.len()
            &&& forall|i: int|
                #![trigger references[i]]
                0 <= i < values.len() ==> {
                    &&& reference_of(values[i]) is Ok
                    &&& references[i].optional == reference_of(values[i])->Ok_0.optional
                    &&& references[i].path == from_invocation(
                        directory,
                        reference_of(values[i])->Ok_0.path,
                    )
                }
        },
        named_references(canonical, document) is Ok <==> match entry.shape {
            ShapeView::List(items) => forall|i: int|
                0 <= i < items.len() ==> reference_of(#[trigger] items[i]) is Ok,
            _ => reference_of(entry) is Ok,
        },
{
    let values = match entry.shape {
        ShapeView::List(items) => items,
        _ => seq![entry],
    };
    lemma_references_one_by_one(values);
    assert(references_in(entry) == references_of(values));
    if !(entry.shape is List) {
        assert(values[0] == entry);
    }
    if references_of(values) is Ok {
        let found = references_of(values)->Ok_0;
        assert forall|i: int| #![trigger found[i]] 0 <= i < values.len() implies reference_of(
            values[i],
        ) == Ok::<ReferenceView, Seq<char>>(found[i]) by {}
        let references = resolved_references(directory, found);
        assert forall|i: int| #![trigger references[i]] 0 <= i < values.len() implies {
            &&& reference_of(values[i]) is Ok
            &&& references[i].optional == reference_of(values[i])->Ok_0.optional
            &&& references[i].path == from_invocation(
                directory,
                reference_of(values[i])->Ok_0.path,
            )
        } by {
            assert(reference_of(values[i]) == Ok::<ReferenceView, Seq<char>>(found[i]));
        }
    }
}

/// Whether a directory of configuration lies in an ancestor of a path that many levels up.
pub open spec fn is_ancestor_configuration(
    directory: Seq<u8>,
    root: Seq<u8>,
    levels: int,
    ancestor: Seq<u8>,
) -> bool {
    &&& directory == joined(ancestor, encode_utf8(".cargo"@))
    &&& components(ancestor) == components(root).take(components(root).len() - levels)
}

/// Whether a directory of configuration lies in some ancestor of a path that many levels up.
pub open spec fn configures(directory: Seq<u8>, root: Seq<u8>, levels: int) -> bool {
    exists|ancestor: Seq<u8>| #[trigger]
        is_ancestor_configuration(directory, root, levels, ancestor)
}

/// Configuration is looked for in `.cargo` of a directory and of every directory above it, from
/// the inside out.
pub proof fn lemma_configuration_of_ancestors(root: Seq<u8>, fuel: nat)
    requires
        fuel > components(root).len(),
    ensures
        ({
            let count = components(root).len();
            let all = configuration_directories(root, fuel);
            &&& all.len() == if count > 0 && components(root)[0] == seq![47u8] {
                count
            } else {
                count + 1
            }
            &&& forall|i: int| #![trigger all[i]] 0 <= i < all.len() ==> configures(all[i], root, i)
        }),
    decreases fuel,
{
    let count = components(root).len();
    let all = configuration_directories(root, fuel);
    lemma_parent_drops_the_last_component(root);
    assert(components(root).take(count as int) =~= components(root));
    assert(all[0] == joined(root, encode_utf8(".cargo"@)));
    assert(is_ancestor_configuration(all[0], root, 0, root));
    match parent_path(root) {
        Some(above) => {
            lemma_configuration_of_ancestors(above, (fuel - 1) as nat);
            let rest = configuration_directories(above, (fuel - 1) as nat);
            assert(all =~= seq![joined(root, encode_utf8(".cargo"@))] + rest);
            assert forall|i: int| #![trigger all[i]] 0 <= i < all.len() implies configures(
                all[i],
                root,
                i,
            ) by {
                if i > 0 {
                    assert(all[i] == rest[i - 1]);
                    assert(configures(rest[i - 1], above, i - 1));
                    let ancestor = choose|ancestor: Seq<u8>| #[trigger]
                        is_ancestor_configuration(rest[i - 1], above, i - 1, ancestor);
                    assert(components(above).take(components(above).len() - (i - 1))
                        =~= components(root).take(count - i));
                    assert(is_ancestor_configuration(all[i], root, i, ancestor));
                }
            }
            if count == 1 {
                assert(components(root)[0] != seq![47u8]);
            } else {
                assert(components(above)[0] == components(root)[0]);
            }
        },
        None => {
            assert(all =~= seq![joined(root, encode_utf8(".cargo"@))]);
            crate::path_laws::lemma_root_stands_first(root);
        },
    }
}

/// Whether the arguments at this place and behind it select a package.
pub open spec fn selects(arguments: Seq<Seq<u8>>, at: int, package: Seq<char>) -> bool {
    arguments[at] == encode_utf8("-p"@) && arguments[at + 1] == encode_utf8(package)
}

/// Each package of a build is selected by name, in order, and nothing else is.
pub proof fn lemma_packages_are_selected(packages: Seq<Seq<char>>)
    ensures
        package_arguments(packages).len() == 2 * packages.len(),
        forall|i: int|
            #![trigger packages[i]]
            0 <= i < packages.len() ==> selects(package_arguments(packages), 2 * i, packages[i]),
    decreases packages.len(),
{
    if packages.len() > 0 {
        let shorter = packages.drop_last();
        lemma_packages_are_selected(shorter);
        let all = package_arguments(packages);
        assert forall|i: int| #![trigger packages[i]] 0 <= i < packages.len() implies selects(
            all,
            2 * i,
            packages[i],
        ) by {
            if i < shorter.len() {
                assert(shorter[i] == packages[i]);
                assert(selects(package_arguments(shorter), 2 * i, shorter[i]));
            }
        }
    }
}

} // verus!

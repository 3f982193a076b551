//! The package graph that Cargo metadata describes.

use vstd::prelude::*;
use vstd::string::*;
use vstd::utf8::encode_utf8;
use super::error::{invalid_metadata, WasmBuildError};
use crate::document::{
    documents_view, member_items, member_of, member_text, text_of_value, Document, DocumentView,
    ShapeView,
};
use crate::order::{bytes_before, bytes_less, lemma_bytes_less_total, lemma_bytes_less_transitive};
use crate::text::{bytes_of, copy_texts, text_equal, texts};

verus! {

/// Package values that Cargo exposes to compilation.
pub open spec fn semantic_field_names() -> Seq<Seq<char>> {
    seq![
        "authors"@,
        "default_run"@,
        "description"@,
        "documentation"@,
        "edition"@,
        "homepage"@,
        "license"@,
        "license_file"@,
        "links"@,
        "metadata"@,
        "name"@,
        "readme"@,
        "repository"@,
        "rust_version"@,
        "version"@,
    ]
}

fn semantic_names() -> (names: Vec<&'static str>)
    ensures
        names@.len() == semantic_field_names().len(),
        forall|i: int| 0 <= i < names@.len() ==> (#[trigger] names@[i])@ == semantic_field_names()[i],
{
    let mut names: Vec<&'static str> = Vec::new();
    names.push("authors");
    names.push("default_run");
    names.push("description");
    names.push("documentation");
    names.push("edition");
    names.push("homepage");
    names.push("license");
    names.push("license_file");
    names.push("links");
    names.push("metadata");
    names.push("name");
    names.push("readme");
    names.push("repository");
    names.push("rust_version");
    names.push("version");
    names
}

/// One package value that Cargo exposes to compilation.
#[derive(Debug)]
pub struct SemanticField {
    /// Name of the value.
    pub name: String,
    /// The value as JSON, when the package has it.
    pub value: Option<String>,
}

/// What a semantic field says.
pub struct SemanticFieldView {
    /// Name of the value.
    pub name: Seq<char>,
    /// The value as JSON, when the package has it.
    pub value: Option<Seq<char>>,
}

/// Text of an optional string.
pub open spec fn optional_text_view(text: Option<String>) -> Option<Seq<char>> {
    match text {
        Some(found) => Some(found@),
        None => None,
    }
}

impl View for SemanticField {
    type V = SemanticFieldView;

    open spec fn view(&self) -> SemanticFieldView {
        SemanticFieldView { name: self.name@, value: optional_text_view(self.value) }
    }
}

/// One package of the resolved graph.
#[derive(Debug)]
pub struct MetadataPackage {
    /// Unique identity of the package.
    pub id: String,
    /// Package name.
    pub name: String,
    /// Package version.
    pub version: String,
    /// Path of the package manifest.
    pub manifest_path: Vec<u8>,
    /// Whether the package is part of a local checkout.
    pub is_local: bool,
    /// Where an external package comes from.
    pub source: Option<String>,
    /// Values that Cargo exposes to compilation.
    pub semantic_fields: Vec<SemanticField>,
}

/// What a package of the resolved graph says.
pub struct PackageView {
    /// Unique identity of the package.
    pub id: Seq<char>,
    /// Package name.
    pub name: Seq<char>,
    /// Package version.
    pub version: Seq<char>,
    /// Path of the package manifest.
    pub manifest_path: Seq<u8>,
    /// Whether the package is part of a local checkout.
    pub is_local: bool,
    /// Where an external package comes from.
    pub source: Option<Seq<char>>,
    /// Values that Cargo exposes to compilation.
    pub semantic_fields: Seq<SemanticFieldView>,
}

/// Views of a list of semantic fields.
pub open spec fn semantic_views(fields: Seq<SemanticField>) -> Seq<SemanticFieldView> {
    fields.map_values(|field: SemanticField| field@)
}

impl View for MetadataPackage {
    type V = PackageView;

    open spec fn view(&self) -> PackageView {
        PackageView {
            id: self.id@,
            name: self.name@,
            version: self.version@,
            manifest_path: self.manifest_path@,
            is_local: self.is_local,
            source: optional_text_view(self.source),
            semantic_fields: semantic_views(self.semantic_fields@),
        }
    }
}

/// Views of a list of packages.
pub open spec fn packages_view(packages: Seq<MetadataPackage>) -> Seq<PackageView> {
    packages.map_values(|package: MetadataPackage| package@)
}

/// The text of a field that has to be there, or what is wrong.
pub open spec fn required_text(value: DocumentView, field: Seq<char>) -> Result<Seq<char>, Seq<char>> {
    match member_text(value, field) {
        Some(text) => Ok(text),
        None => Err("Cargo metadata field `"@ + field + "` is missing"@),
    }
}

/// The text of a field that may be missing or null, or what is wrong.
pub open spec fn optional_text(
    value: DocumentView,
    field: Seq<char>,
) -> Result<Option<Seq<char>>, Seq<char>> {
    match member_of(value, field) {
        None => Ok(None),
        Some(found) => match found.shape {
            ShapeView::Null => Ok(None),
            ShapeView::Text(text) => Ok(Some(text)),
            _ => Err("Cargo metadata field `"@ + field + "` is not a string or null"@),
        },
    }
}

/// The text of a field that has to be there.
pub fn required_string(value: &Document, field: &str) -> (result: Result<String, WasmBuildError>)
    ensures
        match (result, required_text(value@, field@)) {
            (Ok(text), Ok(expected)) => text@ == expected,
            (Err(WasmBuildError::InvalidMetadata { message }), Err(expected)) => message@
                == expected,
            _ => false,
        },
{
    match value.get_text(field) {
        Some(text) => Ok(text.clone()),
        None => {
            let mut message = "Cargo metadata field `".to_owned();
            message.append(field);
            message.append("` is missing");
            Err(WasmBuildError::InvalidMetadata { message })
        },
    }
}

/// The text of a field that may be missing or null.
pub fn optional_string(value: &Document, field: &str) -> (result: Result<Option<String>, WasmBuildError>)
    ensures
        match (result, optional_text(value@, field@)) {
            (Ok(text), Ok(expected)) => optional_text_view(text) == expected,
            (Err(WasmBuildError::InvalidMetadata { message }), Err(expected)) => message@
                == expected,
            _ => false,
        },
{
    match value.get(field) {
        None => Ok(None),
        Some(found) => {
            if found.is_null() {
                return Ok(None);
            }
            match found.as_text() {
                Some(text) => Ok(Some(text.clone())),
                None => {
                    let mut message = "Cargo metadata field `".to_owned();
                    message.append(field);
                    message.append("` is not a string or null");
                    Err(WasmBuildError::InvalidMetadata { message })
                },
            }
        },
    }
}

/// The JSON of a field, when the value has it.
pub open spec fn rendered_member(value: DocumentView, field: Seq<char>) -> Option<Seq<char>> {
    match member_of(value, field) {
        Some(found) => Some(found.rendered),
        None => None,
    }
}

/// The values of a package that Cargo exposes to compilation.
pub open spec fn semantic_fields_of(value: DocumentView) -> Seq<SemanticFieldView> {
    semantic_field_names().map_values(
        |name: Seq<char>| SemanticFieldView { name, value: rendered_member(value, name) },
    )
}

fn semantic_fields(value: &Document) -> (fields: Vec<SemanticField>)
    ensures
        semantic_views(fields@) == semantic_fields_of(value@),
{
    let names = semantic_names();
    let ghost all = semantic_fields_of(value@);
    let mut fields: Vec<SemanticField> = Vec::new();
    let mut at: usize = 0;
    while at < names.len()
        invariant
            at <= names@.len(),
            names@.len() == semantic_field_names().len(),
            forall|i: int|
                0 <= i < names@.len() ==> (#[trigger] names@[i])@ == semantic_field_names()[i],
            all == semantic_fields_of(value@),
            semantic_views(fields@) == all.take(at as int),
        decreases names.len() - at,
    {
        let ghost before = semantic_views(fields@);
        let name = names[at];
        let rendered = match value.get(name) {
            Some(found) => Some(found.rendered.clone()),
            None => None,
        };
        fields.push(SemanticField { name: name.to_owned(), value: rendered });
        proof {
            assert(fields@.last()@ == all[at as int]);
            assert(semantic_views(fields@) =~= before.push(all[at as int]));
            assert(all.take(at + 1) =~= all.take(at as int).push(all[at as int]));
        }
        at = at + 1;
    }
    assert(all.take(at as int) =~= all);
    fields
}

/// The package that a metadata value describes, or what is wrong with it.
pub open spec fn package_of(value: DocumentView) -> Result<PackageView, Seq<char>> {
    match optional_text(value, "source"@) {
        Err(message) => Err(message),
        Ok(source) => match required_text(value, "id"@) {
            Err(message) => Err(message),
            Ok(id) => match required_text(value, "name"@) {
                Err(message) => Err(message),
                Ok(name) => match required_text(value, "version"@) {
                    Err(message) => Err(message),
                    Ok(version) => match required_text(value, "manifest_path"@) {
                        Err(message) => Err(message),
                        Ok(manifest) => Ok(
                            PackageView {
                                id,
                                name,
                                version,
                                manifest_path: encode_utf8(manifest),
                                is_local: member_of(value, "source"@) is Some && member_of(
                                    value,
                                    "source"@,
                                )->0.shape is Null,
                                source,
                                semantic_fields: semantic_fields_of(value),
                            },
                        ),
                    },
                },
            },
        },
    }
}

fn read_package(value: &Document) -> (result: Result<MetadataPackage, WasmBuildError>)
    ensures
        match (result, package_of(value@)) {
            (Ok(package), Ok(expected)) => package@ == expected,
            (Err(WasmBuildError::InvalidMetadata { message }), Err(expected)) => message@
                == expected,
            _ => false,
        },
{
    let source = match optional_string(value, "source") {
        Ok(source) => source,
        Err(error) => return Err(error),
    };
    let id = match required_string(value, "id") {
        Ok(id) => id,
        Err(error) => return Err(error),
    };
    let name = match required_string(value, "name") {
        Ok(name) => name,
        Err(error) => return Err(error),
    };
    let version = match required_string(value, "version") {
        Ok(version) => version,
        Err(error) => return Err(error),
    };
    let manifest = match required_string(value, "manifest_path") {
        Ok(manifest) => manifest,
        Err(error) => return Err(error),
    };
    let is_local = match value.get("source") {
        Some(found) => found.is_null(),
        None => false,
    };
    Ok(
        MetadataPackage {
            id,
            name,
            version,
            manifest_path: bytes_of(manifest.as_str()),
            is_local,
            source,
            semantic_fields: semantic_fields(value),
        },
    )
}

/// Position of the package with identity `id`, from `from` on.
pub open spec fn package_index(packages: Seq<PackageView>, id: Seq<char>, from: int) -> Option<int>
    decreases packages.len() - from,
{
    if from < 0 || from >= packages.len() {
        None
    } else if packages[from].id == id {
        Some(from)
    } else {
        package_index(packages, id, from + 1)
    }
}

/// The packages with `package` in the place of one with its identity, or behind all others.
pub open spec fn with_package(packages: Seq<PackageView>, package: PackageView) -> Seq<PackageView> {
    match package_index(packages, package.id, 0) {
        Some(at) => packages.update(at, package),
        None => packages.push(package),
    }
}

proof fn lemma_package_index(packages: Seq<PackageView>, id: Seq<char>, from: int)
    requires
        0 <= from,
    ensures
        package_index(packages, id, from) matches Some(at) ==> from <= at < packages.len()
            && packages[at].id == id,
        package_index(packages, id, from) is None ==> forall|i: int|
            from <= i < packages.len() ==> (#[trigger] packages[i]).id != id,
    decreases packages.len() - from,
{
    if from < packages.len() && packages[from].id != id {
        lemma_package_index(packages, id, from + 1);
    }
}

/// Position of the package with identity `id`.
pub fn find_package(packages: &Vec<MetadataPackage>, id: &str) -> (found: Option<usize>)
    ensures
        match (found, package_index(packages_view(packages@), id@, 0)) {
            (Some(at), Some(expected)) => at == expected && at < packages@.len(),
            (None, None) => true,
            _ => false,
        },
{
    let mut at: usize = 0;
    while at < packages.len()
        invariant
            at <= packages@.len(),
            package_index(packages_view(packages@), id@, 0) == package_index(
                packages_view(packages@),
                id@,
                at as int,
            ),
        decreases packages.len() - at,
    {
        assert(packages_view(packages@)[at as int].id == packages@[at as int].id@);
        if text_equal(packages[at].id.as_str(), id) {
            return Some(at);
        }
        at = at + 1;
    }
    None
}

/// The packages that a list of metadata values describes, or what is wrong with the first bad one.
pub open spec fn packages_of(values: Seq<DocumentView>) -> Result<Seq<PackageView>, Seq<char>>
    decreases values.len(),
{
    if values.len() == 0 {
        Ok(seq![])
    } else {
        match packages_of(values.drop_last()) {
            Err(message) => Err(message),
            Ok(packages) => match package_of(values.last()) {
                Err(message) => Err(message),
                Ok(package) => Ok(with_package(packages, package)),
            },
        }
    }
}

/// The packages of Cargo metadata, or what is wrong with it.
pub open spec fn metadata_packages_of(metadata: DocumentView) -> Result<Seq<PackageView>, Seq<char>> {
    match member_items(metadata, "packages"@) {
        None => Err("Cargo metadata has no package array"@),
        Some(values) => packages_of(values),
    }
}

proof fn lemma_packages_error(values: Seq<DocumentView>, upto: int)
    requires
        0 <= upto <= values.len(),
        packages_of(values.take(upto)) is Err,
    ensures
        packages_of(values) == packages_of(values.take(upto)),
    decreases values.len() - upto,
{
    if upto < values.len() {
        assert(values.take(upto + 1).drop_last() =~= values.take(upto));
        lemma_packages_error(values, upto + 1);
    } else {
        assert(values.take(upto) =~= values);
    }
}

/// The packages of Cargo metadata, one for each identity.
pub fn metadata_packages(metadata: &Document) -> (result: Result<
    Vec<MetadataPackage>,
    WasmBuildError,
>)
    ensures
        match (result, metadata_packages_of(metadata@)) {
            (Ok(packages), Ok(expected)) => packages_view(packages@) == expected,
            (Err(WasmBuildError::InvalidMetadata { message }), Err(expected)) => message@
                == expected,
            _ => false,
        },
{
    let values = match metadata.get_items("packages") {
        Some(values) => values,
        None => return Err(invalid_metadata("Cargo metadata has no package array")),
    };
    let ghost all = documents_view(values@);
    let mut packages: Vec<MetadataPackage> = Vec::new();
    let mut at: usize = 0;
    assert(packages_view(packages@) =~= seq![]);
    assert(all.take(0) =~= seq![]);
    while at < values.len()
        invariant
            at <= values@.len(),
            all == documents_view(values@),
            Some(all) == member_items(metadata@, "packages"@),
            packages_of(all.take(at as int)) == Ok::<Seq<PackageView>, Seq<char>>(
                packages_view(packages@),
            ),
        decreases values.len() - at,
    {
        proof {
            assert(all.take(at + 1).drop_last() =~= all.take(at as int));
            assert(all.take(at + 1).last() == values@[at as int]@);
        }
        match read_package(&values[at]) {
            Err(error) => {
                proof {
                    lemma_packages_error(all, at + 1);
                }
                return Err(error);
            },
            Ok(package) => {
                let ghost before = packages_view(packages@);
                match find_package(&packages, package.id.as_str()) {
                    Some(found) => {
                        packages[found] = package;
                        assert(packages_view(packages@) =~= before.update(found as int, package@));
                    },
                    None => {
                        packages.push(package);
                        assert(packages_view(packages@) =~= before.push(package@));
                    },
                }
            },
        }
        at = at + 1;
    }
    assert(all.take(at as int) =~= all);
    Ok(packages)
}

/// The texts among a list of values, in order.
pub open spec fn texts_among(values: Seq<DocumentView>) -> Seq<Seq<char>>
    decreases values.len(),
{
    if values.len() == 0 {
        seq![]
    } else {
        match text_of_value(values.last()) {
            Some(text) => texts_among(values.drop_last()).push(text),
            None => texts_among(values.drop_last()),
        }
    }
}

fn collect_texts(values: &Vec<Document>) -> (found: Vec<String>)
    ensures
        texts(found@) == texts_among(documents_view(values@)),
{
    let ghost all = documents_view(values@);
    let mut found: Vec<String> = Vec::new();
    let mut at: usize = 0;
    assert(texts(found@) =~= texts_among(all.take(0)));
    while at < values.len()
        invariant
            at <= values@.len(),
            all == documents_view(values@),
            texts(found@) == texts_among(all.take(at as int)),
        decreases values.len() - at,
    {
        proof {
            assert(all.take(at + 1).drop_last() =~= all.take(at as int));
            assert(all.take(at + 1).last() == values@[at as int]@);
        }
        if let Some(text) = values[at].as_text() {
            let ghost before = texts(found@);
            found.push(text.clone());
            assert(texts(found@) =~= before.push(text@));
        }
        at = at + 1;
    }
    assert(all.take(at as int) =~= all);
    found
}

/// Whether a list of strings holds `text`.
pub fn contains_text(strings: &Vec<String>, text: &str) -> (found: bool)
    ensures
        found == texts(strings@).contains(text@),
{
    let mut at: usize = 0;
    while at < strings.len()
        invariant
            at <= strings@.len(),
            forall|i: int| 0 <= i < at ==> #[trigger] texts(strings@)[i] != text@,
        decreases strings.len() - at,
    {
        if text_equal(strings[at].as_str(), text) {
            assert(texts(strings@)[at as int] == text@);
            return true;
        }
        at = at + 1;
    }
    false
}

/// Whether a package is a workspace member of the requested name.
pub open spec fn is_requested(
    package: PackageView,
    requested: Seq<char>,
    members: Seq<Seq<char>>,
) -> bool {
    package.name == requested && members.contains(package.id)
}

/// The workspace members of the requested name.
pub open spec fn requested_packages(
    packages: Seq<PackageView>,
    requested: Seq<char>,
    members: Seq<Seq<char>>,
) -> Seq<PackageView> {
    packages.filter(|package: PackageView| is_requested(package, requested, members))
}

/// Identities of the requested packages, or what is wrong with the first request.
pub open spec fn selected_ids(
    requests: Seq<Seq<char>>,
    packages: Seq<PackageView>,
    members: Seq<Seq<char>>,
) -> Result<Seq<Seq<char>>, Seq<char>>
    decreases requests.len(),
{
    if requests.len() == 0 {
        Ok(seq![])
    } else {
        match selected_ids(requests.drop_last(), packages, members) {
            Err(message) => Err(message),
            Ok(ids) => {
                let requested = requests.last();
                let found = requested_packages(packages, requested, members);
                if found.len() == 0 {
                    Err("Cargo workspace contains no package named `"@ + requested + "`"@)
                } else if found.len() > 1 {
                    Err("Cargo workspace package name `"@ + requested + "` is ambiguous"@)
                } else {
                    Ok(ids.push(found[0].id))
                }
            },
        }
    }
}

proof fn lemma_selected_error(
    requests: Seq<Seq<char>>,
    packages: Seq<PackageView>,
    members: Seq<Seq<char>>,
    upto: int,
)
    requires
        0 <= upto <= requests.len(),
        selected_ids(requests.take(upto), packages, members) is Err,
    ensures
        selected_ids(requests, packages, members) == selected_ids(
            requests.take(upto),
            packages,
            members,
        ),
    decreases requests.len() - upto,
{
    if upto < requests.len() {
        assert(requests.take(upto + 1).drop_last() =~= requests.take(upto));
        lemma_selected_error(requests, packages, members, upto + 1);
    } else {
        assert(requests.take(upto) =~= requests);
    }
}

/// Number of requested packages, capped at two, and the identity of the first one.
fn find_requested(
    packages: &Vec<MetadataPackage>,
    requested: &str,
    members: &Vec<String>,
) -> (result: (usize, String))
    ensures
        ({
            let found = requested_packages(packages_view(packages@), requested@, texts(members@));
            &&& result.0 == if found.len() < 2 {
                found.len()
            } else {
                2
            }
            &&& result.0 == 1 ==> result.1@ == found[0].id
        }),
{
    let ghost all = packages_view(packages@);
    let ghost names = texts(members@);
    let mut count: usize = 0;
    let mut id = String::new();
    let mut at: usize = 0;
    assert(requested_packages(all.take(0), requested@, names) =~= seq![]) by {
        reveal(Seq::filter);
    }
    while at < packages.len()
        invariant
            at <= packages@.len(),
            all == packages_view(packages@),
            names == texts(members@),
            count == if requested_packages(all.take(at as int), requested@, names).len() < 2 {
                requested_packages(all.take(at as int), requested@, names).len()
            } else {
                2
            },
            count >= 1 ==> id@ == requested_packages(all.take(at as int), requested@, names)[0].id,
        decreases packages.len() - at,
    {
        proof {
            reveal(Seq::filter);
            assert(all.take(at + 1).drop_last() =~= all.take(at as int));
            assert(all.take(at + 1).last() == packages@[at as int]@);
        }
        if text_equal(packages[at].name.as_str(), requested) && contains_text(
            members,
            packages[at].id.as_str(),
        ) {
            if count == 0 {
                id = packages[at].id.clone();
            }
            if count < 2 {
                count = count + 1;
            }
        }
        at = at + 1;
    }
    assert(all.take(at as int) =~= all);
    (count, id)
}

/// Identities of the packages that a build selects.
///
/// Every requested name has to belong to exactly one workspace member.
pub fn selected_package_ids(
    requests: &Vec<String>,
    metadata: &Document,
    packages: &Vec<MetadataPackage>,
) -> (result: Result<Vec<String>, WasmBuildError>)
    ensures
        match member_items(metadata@, "workspace_members"@) {
            None => {
                &&& result matches Err(WasmBuildError::InvalidMetadata { message })
                &&& message@ == "Cargo metadata has no workspace member array"@
            },
            Some(values) => match (
                result,
                selected_ids(texts(requests@), packages_view(packages@), texts_among(values)),
            ) {
                (Ok(ids), Ok(expected)) => texts(ids@) == expected,
                (Err(WasmBuildError::InvalidSpec { message }), Err(expected)) => message@
                    == expected,
                _ => false,
            },
        },
{
    let values = match metadata.get_items("workspace_members") {
        Some(values) => values,
        None => return Err(invalid_metadata("Cargo metadata has no workspace member array")),
    };
    let members = collect_texts(values);
    let ghost all = texts(requests@);
    let ghost graph = packages_view(packages@);
    let ghost names = texts(members@);
    let mut ids: Vec<String> = Vec::new();
    let mut at: usize = 0;
    assert(texts(ids@) =~= seq![]);
    assert(all.take(0) =~= seq![]);
    while at < requests.len()
        invariant
            at <= requests@.len(),
            all == texts(requests@),
            graph == packages_view(packages@),
            names == texts(members@),
            member_items(metadata@, "workspace_members"@) is Some,
            names == texts_among(member_items(metadata@, "workspace_members"@)->0),
            selected_ids(all.take(at as int), graph, names) == Ok::<Seq<Seq<char>>, Seq<char>>(
                texts(ids@),
            ),
        decreases requests.len() - at,
    {
        proof {
            assert(all.take(at + 1).drop_last() =~= all.take(at as int));
            assert(all.take(at + 1).last() == requests@[at as int]@);
        }
        let requested = requests[at].as_str();
        let (count, id) = find_requested(packages, requested, &members);
        if count == 0 {
            let mut message = "Cargo workspace contains no package named `".to_owned();
            message.append(requested);
            message.append("`");
            proof {
                lemma_selected_error(all, graph, names, at + 1);
            }
            return Err(WasmBuildError::InvalidSpec { message });
        }
        if count > 1 {
            let mut message = "Cargo workspace package name `".to_owned();
            message.append(requested);
            message.append("` is ambiguous");
            proof {
                lemma_selected_error(all, graph, names, at + 1);
            }
            return Err(WasmBuildError::InvalidSpec { message });
        }
        let ghost before = texts(ids@);
        ids.push(id);
        assert(texts(ids@) =~= before.push(id@));
        at = at + 1;
    }
    assert(all.take(at as int) =~= all);
    Ok(ids)
}

/// The packages on which one package depends.
#[derive(Debug)]
pub struct DependencyNode {
    /// Identity of the depending package.
    pub id: String,
    /// Identities of the packages it depends on.
    pub deps: Vec<String>,
}

/// What a dependency node says.
pub struct DependencyView {
    /// Identity of the depending package.
    pub id: Seq<char>,
    /// Identities of the packages it depends on.
    pub deps: Seq<Seq<char>>,
}

impl View for DependencyNode {
    type V = DependencyView;

    open spec fn view(&self) -> DependencyView {
        DependencyView { id: self.id@, deps: texts(self.deps@) }
    }
}

/// Views of a list of dependency nodes.
pub open spec fn dependencies_view(nodes: Seq<DependencyNode>) -> Seq<DependencyView> {
    nodes.map_values(|node: DependencyNode| node@)
}

/// The resolved dependency nodes of Cargo metadata.
pub open spec fn resolved_nodes(metadata: DocumentView) -> Option<Seq<DocumentView>> {
    match member_of(metadata, "resolve"@) {
        Some(resolve) => member_items(resolve, "nodes"@),
        None => None,
    }
}

/// The resolved dependency nodes of Cargo metadata.
pub fn find_resolved_nodes(metadata: &Document) -> (nodes: Option<&Vec<Document>>)
    ensures
        nodes is Some == resolved_nodes(metadata@) is Some,
        nodes matches Some(found) ==> Some(documents_view(found@)) == resolved_nodes(metadata@),
{
    match metadata.get("resolve") {
        Some(resolve) => resolve.get_items("nodes"),
        None => None,
    }
}

/// The package identities that a list of dependency values names, or what is wrong.
pub open spec fn dependency_ids(values: Seq<DocumentView>) -> Result<Seq<Seq<char>>, Seq<char>>
    decreases values.len(),
{
    if values.len() == 0 {
        Ok(seq![])
    } else {
        match dependency_ids(values.drop_last()) {
            Err(message) => Err(message),
            Ok(ids) => match required_text(values.last(), "pkg"@) {
                Err(message) => Err(message),
                Ok(id) => Ok(ids.push(id)),
            },
        }
    }
}

proof fn lemma_dependency_error(values: Seq<DocumentView>, upto: int)
    requires
        0 <= upto <= values.len(),
        dependency_ids(values.take(upto)) is Err,
    ensures
        dependency_ids(values) == dependency_ids(values.take(upto)),
    decreases values.len() - upto,
{
    if upto < values.len() {
        assert(values.take(upto + 1).drop_last() =~= values.take(upto));
        lemma_dependency_error(values, upto + 1);
    } else {
        assert(values.take(upto) =~= values);
    }
}

fn read_dependency_ids(values: &Vec<Document>) -> (result: Result<Vec<String>, WasmBuildError>)
    ensures
        match (result, dependency_ids(documents_view(values@))) {
            (Ok(ids), Ok(expected)) => texts(ids@) == expected,
            (Err(WasmBuildError::InvalidMetadata { message }), Err(expected)) => message@
                == expected,
            _ => false,
        },
{
    let ghost all = documents_view(values@);
    let mut ids: Vec<String> = Vec::new();
    let mut at: usize = 0;
    assert(texts(ids@) =~= seq![]);
    assert(all.take(0) =~= seq![]);
    while at < values.len()
        invariant
            at <= values@.len(),
            all == documents_view(values@),
            dependency_ids(all.take(at as int)) == Ok::<Seq<Seq<char>>, Seq<char>>(texts(ids@)),
        decreases values.len() - at,
    {
        proof {
            assert(all.take(at + 1).drop_last() =~= all.take(at as int));
            assert(all.take(at + 1).last() == values@[at as int]@);
        }
        match required_string(&values[at], "pkg") {
            Err(error) => {
                proof {
                    lemma_dependency_error(all, at + 1);
                }
                return Err(error);
            },
            Ok(id) => {
                let ghost before = texts(ids@);
                ids.push(id);
                assert(texts(ids@) =~= before.push(id@));
            },
        }
        at = at + 1;
    }
    assert(all.take(at as int) =~= all);
    Ok(ids)
}

/// The dependency node that a metadata value describes, or what is wrong with it.
pub open spec fn node_of(value: DocumentView) -> Result<DependencyView, Seq<char>> {
    match required_text(value, "id"@) {
        Err(message) => Err(message),
        Ok(id) => match member_items(value, "deps"@) {
            None => Err("Cargo metadata dependency node has no deps array"@),
            Some(values) => match dependency_ids(values) {
                Err(message) => Err(message),
                Ok(deps) => Ok(DependencyView { id, deps }),
            },
        },
    }
}

fn read_node(value: &Document) -> (result: Result<DependencyNode, WasmBuildError>)
    ensures
        match (result, node_of(value@)) {
            (Ok(node), Ok(expected)) => node@ == expected,
            (Err(WasmBuildError::InvalidMetadata { message }), Err(expected)) => message@
                == expected,
            _ => false,
        },
{
    let id = match required_string(value, "id") {
        Ok(id) => id,
        Err(error) => return Err(error),
    };
    match value.get_items("deps") {
        None => Err(invalid_metadata("Cargo metadata dependency node has no deps array")),
        Some(values) => match read_dependency_ids(values) {
            Ok(deps) => Ok(DependencyNode { id, deps }),
            Err(error) => Err(error),
        },
    }
}

/// The dependency nodes that a list of metadata values describes, or what is wrong.
pub open spec fn nodes_of(values: Seq<DocumentView>) -> Result<Seq<DependencyView>, Seq<char>>
    decreases values.len(),
{
    if values.len() == 0 {
        Ok(seq![])
    } else {
        match nodes_of(values.drop_last()) {
            Err(message) => Err(message),
            Ok(nodes) => match node_of(values.last()) {
                Err(message) => Err(message),
                Ok(node) => Ok(nodes.push(node)),
            },
        }
    }
}

proof fn lemma_nodes_error(values: Seq<DocumentView>, upto: int)
    requires
        0 <= upto <= values.len(),
        nodes_of(values.take(upto)) is Err,
    ensures
        nodes_of(values) == nodes_of(values.take(upto)),
    decreases values.len() - upto,
{
    if upto < values.len() {
        assert(values.take(upto + 1).drop_last() =~= values.take(upto));
        lemma_nodes_error(values, upto + 1);
    } else {
        assert(values.take(upto) =~= values);
    }
}

/// The dependency nodes of Cargo metadata, or what is wrong with it.
pub open spec fn metadata_nodes_of(metadata: DocumentView) -> Result<Seq<DependencyView>, Seq<char>> {
    match resolved_nodes(metadata) {
        None => Err("Cargo metadata has no resolved dependency nodes"@),
        Some(values) => nodes_of(values),
    }
}

/// The dependency nodes of Cargo metadata.
///
/// Where an identity has several nodes, the last one counts.
pub fn metadata_dependencies(metadata: &Document) -> (result: Result<
    Vec<DependencyNode>,
    WasmBuildError,
>)
    ensures
        match (result, metadata_nodes_of(metadata@)) {
            (Ok(nodes), Ok(expected)) => dependencies_view(nodes@) == expected,
            (Err(WasmBuildError::InvalidMetadata { message }), Err(expected)) => message@
                == expected,
            _ => false,
        },
{
    let values = match find_resolved_nodes(metadata) {
        Some(values) => values,
        None => return Err(invalid_metadata("Cargo metadata has no resolved dependency nodes")),
    };
    let ghost all = documents_view(values@);
    let mut nodes: Vec<DependencyNode> = Vec::new();
    let mut at: usize = 0;
    assert(dependencies_view(nodes@) =~= seq![]);
    assert(all.take(0) =~= seq![]);
    while at < values.len()
        invariant
            at <= values@.len(),
            all == documents_view(values@),
            Some(all) == resolved_nodes(metadata@),
            nodes_of(all.take(at as int)) == Ok::<Seq<DependencyView>, Seq<char>>(
                dependencies_view(nodes@),
            ),
        decreases values.len() - at,
    {
        proof {
            assert(all.take(at + 1).drop_last() =~= all.take(at as int));
            assert(all.take(at + 1).last() == values@[at as int]@);
        }
        match read_node(&values[at]) {
            Err(error) => {
                proof {
                    lemma_nodes_error(all, at + 1);
                }
                return Err(error);
            },
            Ok(node) => {
                let ghost before = dependencies_view(nodes@);
                nodes.push(node);
                assert(dependencies_view(nodes@) =~= before.push(node@));
            },
        }
        at = at + 1;
    }
    assert(all.take(at as int) =~= all);
    Ok(nodes)
}

/// Position of the last node with identity `id` among the first `upto`.
pub open spec fn last_node(nodes: Seq<DependencyView>, id: Seq<char>, upto: int) -> Option<int>
    decreases upto,
{
    if upto <= 0 || upto > nodes.len() {
        None
    } else if nodes[upto - 1].id == id {
        Some(upto - 1)
    } else {
        last_node(nodes, id, upto - 1)
    }
}

/// The packages on which `id` depends.
pub open spec fn dependencies_of(nodes: Seq<DependencyView>, id: Seq<char>) -> Seq<Seq<char>> {
    match last_node(nodes, id, nodes.len() as int) {
        Some(at) => nodes[at].deps,
        None => seq![],
    }
}

proof fn lemma_last_node(nodes: Seq<DependencyView>, id: Seq<char>, upto: int)
    ensures
        last_node(nodes, id, upto) matches Some(at) ==> 0 <= at < nodes.len() && at < upto
            && nodes[at].id == id,
    decreases upto,
{
    if upto > 0 && upto <= nodes.len() && nodes[upto - 1].id != id {
        lemma_last_node(nodes, id, upto - 1);
    }
}

fn find_node(nodes: &Vec<DependencyNode>, id: &str) -> (found: Option<usize>)
    ensures
        match (found, last_node(dependencies_view(nodes@), id@, nodes@.len() as int)) {
            (Some(at), Some(expected)) => at == expected && at < nodes@.len(),
            (None, None) => true,
            _ => false,
        },
{
    let mut at: usize = nodes.len();
    while at > 0
        invariant
            at <= nodes@.len(),
            last_node(dependencies_view(nodes@), id@, nodes@.len() as int) == last_node(
                dependencies_view(nodes@),
                id@,
                at as int,
            ),
        decreases at,
    {
        assert(dependencies_view(nodes@)[at - 1].id == nodes@[at - 1].id@);
        if text_equal(nodes[at - 1].id.as_str(), id) {
            return Some(at - 1);
        }
        at = at - 1;
    }
    None
}

/// Whether `path` leads from a root along dependencies.
pub open spec fn is_dependency_path(
    path: Seq<Seq<char>>,
    roots: Seq<Seq<char>>,
    nodes: Seq<DependencyView>,
) -> bool {
    &&& path.len() > 0
    &&& roots.contains(path[0])
    &&& forall|i: int|
        0 <= i < path.len() - 1 ==> dependencies_of(nodes, #[trigger] path[i]).contains(path[i + 1])
}

/// Whether a path leads from a root along dependencies to `id`.
pub open spec fn is_reachable(
    id: Seq<char>,
    roots: Seq<Seq<char>>,
    nodes: Seq<DependencyView>,
) -> bool {
    exists|path: Seq<Seq<char>>| #[trigger]
        is_dependency_path(path, roots, nodes) && path.last() == id
}

/// Whether texts strictly increase in the order of their UTF-8 bytes.
pub open spec fn in_text_order(items: Seq<Seq<char>>) -> bool {
    forall|i: int, j: int|
        #![trigger items[i], items[j]]
        0 <= i < j < items.len() ==> bytes_less(encode_utf8(items[i]), encode_utf8(items[j]))
}

proof fn lemma_reachable_step(
    id: Seq<char>,
    next: Seq<char>,
    roots: Seq<Seq<char>>,
    nodes: Seq<DependencyView>,
)
    requires
        is_reachable(id, roots, nodes),
        dependencies_of(nodes, id).contains(next),
    ensures
        is_reachable(next, roots, nodes),
{
    let path = choose|path: Seq<Seq<char>>| #[trigger]
        is_dependency_path(path, roots, nodes) && path.last() == id;
    let longer = path.push(next);
    assert forall|i: int| 0 <= i < longer.len() - 1 implies dependencies_of(
        nodes,
        #[trigger] longer[i],
    ).contains(longer[i + 1]) by {
        if i < path.len() - 1 {
            assert(dependencies_of(nodes, path[i]).contains(path[i + 1]));
        }
    }
    assert(is_dependency_path(longer, roots, nodes));
    assert(longer.last() == next);
}

proof fn lemma_reachable_root(id: Seq<char>, roots: Seq<Seq<char>>, nodes: Seq<DependencyView>)
    requires
        roots.contains(id),
    ensures
        is_reachable(id, roots, nodes),
{
    let path = seq![id];
    assert(is_dependency_path(path, roots, nodes));
    assert(path.last() == id);
}

proof fn lemma_closed_is_complete(
    found: Seq<Seq<char>>,
    path: Seq<Seq<char>>,
    roots: Seq<Seq<char>>,
    nodes: Seq<DependencyView>,
)
    requires
        is_dependency_path(path, roots, nodes),
        forall|i: int| 0 <= i < roots.len() ==> found.contains(#[trigger] roots[i]),
        forall|id: Seq<char>, next: Seq<char>|
            #![trigger dependencies_of(nodes, id).contains(next)]
            found.contains(id) && dependencies_of(nodes, id).contains(next) ==> found.contains(next),
    ensures
        found.contains(path.last()),
    decreases path.len(),
{
    if path.len() == 1 {
        let k = choose|k: int| 0 <= k < roots.len() && roots[k] == path[0];
        assert(found.contains(roots[k]));
    } else {
        let shorter = path.drop_last();
        assert forall|i: int| 0 <= i < shorter.len() - 1 implies dependencies_of(
            nodes,
            #[trigger] shorter[i],
        ).contains(shorter[i + 1]) by {
            assert(dependencies_of(nodes, path[i]).contains(path[i + 1]));
        }
        lemma_closed_is_complete(found, shorter, roots, nodes);
        let at = path.len() - 2;
        assert(dependencies_of(nodes, path[at]).contains(path[at + 1]));
        assert(shorter.last() == path[at]);
    }
}

spec fn unexpanded(expanded: Seq<bool>) -> nat
    decreases expanded.len(),
{
    if expanded.len() == 0 {
        0
    } else {
        unexpanded(expanded.drop_last()) + if expanded.last() {
            0nat
        } else {
            1nat
        }
    }
}

proof fn lemma_expand(expanded: Seq<bool>, at: int)
    requires
        0 <= at < expanded.len(),
        !expanded[at],
    ensures
        unexpanded(expanded.update(at, true)) + 1 == unexpanded(expanded),
    decreases expanded.len(),
{
    if at == expanded.len() - 1 {
        assert(expanded.update(at, true).drop_last() =~= expanded.drop_last());
    } else {
        assert(expanded.update(at, true).drop_last() =~= expanded.drop_last().update(at, true));
        lemma_expand(expanded.drop_last(), at);
    }
}

proof fn lemma_encode_injective(left: Seq<char>, right: Seq<char>)
    requires
        encode_utf8(left) == encode_utf8(right),
    ensures
        left == right,
{
    broadcast use vstd::utf8::encode_utf8_decode_utf8;

    assert(vstd::utf8::decode_utf8(encode_utf8(left)) == left);
    assert(vstd::utf8::decode_utf8(encode_utf8(right)) == right);
}

/// Put `text` into an ordered list, unless the list holds it; says whether it was new.
pub fn insert_text(items: &mut Vec<String>, text: String) -> (added: bool)
    requires
        in_text_order(texts(old(items)@)),
    ensures
        in_text_order(texts(final(items)@)),
        added == !texts(old(items)@).contains(text@),
        forall|other: Seq<char>|
            #![trigger texts(final(items)@).contains(other)]
            texts(final(items)@).contains(other) == (texts(old(items)@).contains(other) || other
                == text@),
{
    let ghost before = texts(items@);
    let mut at: usize = items.len();
    while at > 0 && bytes_before(text.as_str().as_bytes(), items[at - 1].as_str().as_bytes())
        invariant
            at <= items@.len(),
            before == texts(items@),
            in_text_order(before),
            forall|i: int|
                at <= i < before.len() ==> bytes_less(
                    encode_utf8(text@),
                    encode_utf8(#[trigger] before[i]),
                ),
        decreases at,
    {
        assert(before[at - 1] == items@[at - 1]@);
        at = at - 1;
    }
    if at > 0 && text_equal(items[at - 1].as_str(), text.as_str()) {
        assert(before[at - 1] == text@);
        return false;
    }
    proof {
        assert(at > 0 ==> before[at - 1] == items@[at - 1]@);
        if at > 0 {
            lemma_bytes_less_total(encode_utf8(text@), encode_utf8(before[at - 1]));
            if encode_utf8(text@) == encode_utf8(before[at - 1]) {
                lemma_encode_injective(text@, before[at - 1]);
            }
        }
        assert forall|i: int| 0 <= i < at implies bytes_less(
            encode_utf8(#[trigger] before[i]),
            encode_utf8(text@),
        ) by {
            if i < at - 1 {
                assert(bytes_less(encode_utf8(before[i]), encode_utf8(before[at - 1])));
                lemma_bytes_less_transitive(
                    encode_utf8(before[i]),
                    encode_utf8(before[at - 1]),
                    encode_utf8(text@),
                );
            }
        }
        if before.contains(text@) {
            let k = choose|k: int| 0 <= k < before.len() && before[k] == text@;
            crate::order::lemma_bytes_less_irreflexive(encode_utf8(text@));
            if k < at {
                assert(bytes_less(encode_utf8(before[k]), encode_utf8(text@)));
            } else {
                assert(bytes_less(encode_utf8(text@), encode_utf8(before[k])));
            }
        }
    }
    items.insert(at, text);
    proof {
        let after = texts(items@);
        assert(after =~= before.insert(at as int, text@));
        assert forall|i: int, j: int| #![trigger after[i], after[j]] 0 <= i < j
            < after.len() implies bytes_less(encode_utf8(after[i]), encode_utf8(after[j])) by {
            if i < at && j > at {
                assert(bytes_less(encode_utf8(before[i]), encode_utf8(before[j - 1])));
            } else if j < at {
                assert(bytes_less(encode_utf8(before[i]), encode_utf8(before[j])));
            } else if i > at {
                assert(bytes_less(encode_utf8(before[i - 1]), encode_utf8(before[j - 1])));
            } else if i == at {
                assert(after[j] == before[j - 1]);
            }
        }
        assert forall|other: Seq<char>| #![trigger after.contains(other)] after.contains(other)
            == (before.contains(other) || other == text@) by {
            if before.contains(other) {
                let k = choose|k: int| 0 <= k < before.len() && before[k] == other;
                if k < at {
                    assert(after[k] == other);
                } else {
                    assert(after[k + 1] == other);
                }
            }
            assert(after[at as int] == text@);
            if after.contains(other) {
                let k = choose|k: int| 0 <= k < after.len() && after[k] == other;
                if k < at {
                    assert(before[k] == other);
                } else if k > at {
                    assert(before[k - 1] == other);
                }
            }
        }
    }
    true
}

/// Identities of every package that the selected ones reach through dependencies, in order.
pub fn package_closure(selected: &Vec<String>, nodes: &Vec<DependencyNode>) -> (closure: Vec<String>)
    ensures
        in_text_order(texts(closure@)),
        forall|id: Seq<char>|
            #![trigger texts(closure@).contains(id)]
            texts(closure@).contains(id) == is_reachable(
                id,
                texts(selected@),
                dependencies_view(nodes@),
            ),
{
    let ghost roots = texts(selected@);
    let ghost graph = dependencies_view(nodes@);
    let mut closure: Vec<String> = Vec::new();
    let mut queue = copy_texts(selected);
    let mut expanded: Vec<bool> = Vec::new();
    while expanded.len() < nodes.len()
        invariant
            expanded@.len() <= nodes@.len(),
            forall|i: int| 0 <= i < expanded@.len() ==> !(#[trigger] expanded@[i]),
        decreases nodes.len() - expanded.len(),
    {
        expanded.push(false);
    }
    let mut head: usize = 0;
    proof {
        assert forall|i: int| 0 <= i < queue@.len() implies is_reachable(
            #[trigger] texts(queue@)[i],
            roots,
            graph,
        ) by {
            assert(roots[i] == texts(queue@)[i]);
            lemma_reachable_root(roots[i], roots, graph);
        }
    }
    while head < queue.len()
        invariant
            head <= queue@.len(),
            roots == texts(selected@),
            graph == dependencies_view(nodes@),
            expanded@.len() == nodes@.len(),
            in_text_order(texts(closure@)),
            forall|i: int|
                0 <= i < queue@.len() ==> is_reachable(#[trigger] texts(queue@)[i], roots, graph),
            forall|i: int| 0 <= i < head ==> texts(closure@).contains(#[trigger] texts(queue@)[i]),
            forall|id: Seq<char>|
                #![trigger texts(closure@).contains(id)]
                texts(closure@).contains(id) ==> is_reachable(id, roots, graph),
            forall|id: Seq<char>, next: Seq<char>|
                #![trigger dependencies_of(graph, id).contains(next)]
                texts(closure@).contains(id) && dependencies_of(graph, id).contains(next)
                    ==> texts(queue@).contains(next),
            forall|i: int|
                0 <= i < roots.len() ==> texts(queue@).contains(#[trigger] roots[i]),
            forall|i: int|
                0 <= i < nodes@.len() && #[trigger] expanded@[i] ==> texts(closure@).contains(
                    nodes@[i].id@,
                ),
        decreases unexpanded(expanded@), queue.len() - head,
    {
        let ghost old_closure = texts(closure@);
        let ghost old_queue = texts(queue@);
        let id = queue[head].clone();
        assert(old_queue[head as int] == id@);
        head = head + 1;
        let copy = id.clone();
        if insert_text(&mut closure, copy) {
            match find_node(nodes, id.as_str()) {
                Some(at) => {
                    proof {
                        lemma_last_node(graph, id@, nodes@.len() as int);
                        assert(graph[at as int] == nodes@[at as int]@);
                        assert(!expanded@[at as int]);
                        lemma_expand(expanded@, at as int);
                    }
                    expanded.set(at, true);
                    let mut more = copy_texts(&nodes[at].deps);
                    let ghost deps = texts(more@);
                    let ghost queue_before = queue@;
                    queue.append(&mut more);
                    proof {
                        assert(texts(queue@) =~= old_queue + deps);
                        assert(deps == dependencies_of(graph, id@));
                        assert forall|i: int| 0 <= i < queue@.len() implies is_reachable(
                            #[trigger] texts(queue@)[i],
                            roots,
                            graph,
                        ) by {
                            if i < old_queue.len() {
                                assert(texts(queue@)[i] == old_queue[i]);
                            } else {
                                assert(texts(queue@)[i] == deps[i - old_queue.len()]);
                                assert(dependencies_of(graph, id@).contains(texts(queue@)[i]));
                                lemma_reachable_step(id@, texts(queue@)[i], roots, graph);
                            }
                        }
                        assert forall|other: Seq<char>| old_queue.contains(other) implies texts(
                            queue@,
                        ).contains(other) by {
                            let k = choose|k: int| 0 <= k < old_queue.len() && old_queue[k] == other;
                            assert(texts(queue@)[k] == other);
                        }
                        assert forall|other: Seq<char>| deps.contains(other) implies texts(
                            queue@,
                        ).contains(other) by {
                            let k = choose|k: int| 0 <= k < deps.len() && deps[k] == other;
                            assert(texts(queue@)[old_queue.len() + k] == other);
                        }
                    }
                },
                None => {
                    assert(dependencies_of(graph, id@) =~= seq![]);
                },
            }
        }
        proof {
            assert forall|i: int| 0 <= i < head implies texts(closure@).contains(
                #[trigger] texts(queue@)[i],
            ) by {
                assert(texts(queue@)[i] == old_queue[i]);
                if i < head - 1 {
                    assert(old_closure.contains(old_queue[i]));
                }
            }
        }
    }
    proof {
        let found = texts(closure@);
        assert forall|other: Seq<char>| texts(queue@).contains(other) implies found.contains(
            other,
        ) by {
            let k = choose|k: int| 0 <= k < queue@.len() && texts(queue@)[k] == other;
            assert(found.contains(texts(queue@)[k]));
        }
        assert forall|id: Seq<char>| #![trigger found.contains(id)] is_reachable(
            id,
            roots,
            graph,
        ) implies found.contains(id) by {
            let path = choose|path: Seq<Seq<char>>| #[trigger]
                is_dependency_path(path, roots, graph) && path.last() == id;
            assert forall|i: int| 0 <= i < roots.len() implies found.contains(
                #[trigger] roots[i],
            ) by {
                assert(texts(queue@).contains(roots[i]));
            }
            lemma_closed_is_complete(found, path, roots, graph);
        }
    }
    closure
}

} // verus!

//! Semantic projection of a workspace: what of it can change a selected build.

use vstd::prelude::*;
use vstd::string::*;
use vstd::utf8::encode_utf8;
use super::error::{invalid_metadata, WasmBuildError};
use super::metadata::{
    find_package, find_resolved_nodes, optional_text_view, package_index, packages_view,
    required_string, required_text, resolved_nodes, semantic_views, MetadataPackage, PackageView,
    SemanticFieldView,
};
use crate::digest::{digest_of, field, Field, InputDigest, InputHasher};
use crate::document::{
    documents_view, member_items, member_of, member_text, read_toml, text_of_value, toml_of,
    Document, DocumentView,
};
use crate::order::{
    bytes_before, bytes_less, lemma_ranked_view, sort_ranked, sorted_by, text_before, Ranked,
};
use crate::paths::{
    join, joined, parent, parent_path, paths_equal, same_path, strip_prefix, stripped,
};
use crate::text::{has_char, has_prefix, text_equal, texts};

verus! {

/// A text file as it is found.
#[derive(Debug)]
pub enum FileText {
    /// The file does not exist.
    Missing,
    /// The file holds this text.
    Text(String),
    /// The file could not be read.
    Failed {
        /// Rendered cause.
        message: String,
    },
}

/// An external package as the lockfile pins it.
#[derive(Debug)]
pub struct LockedPackageIdentity {
    /// Package name.
    pub name: String,
    /// Package version.
    pub version: String,
    /// Where the package comes from.
    pub source: String,
    /// Checksum of the package contents.
    pub checksum: Option<String>,
}

/// What a locked package says.
pub struct LockedView {
    /// Package name.
    pub name: Seq<char>,
    /// Package version.
    pub version: Seq<char>,
    /// Where the package comes from.
    pub source: Seq<char>,
    /// Checksum of the package contents.
    pub checksum: Option<Seq<char>>,
}

impl View for LockedPackageIdentity {
    type V = LockedView;

    open spec fn view(&self) -> LockedView {
        LockedView {
            name: self.name@,
            version: self.version@,
            source: self.source@,
            checksum: optional_text_view(self.checksum),
        }
    }
}

/// Views of a list of locked packages.
pub open spec fn locked_views(packages: Seq<LockedPackageIdentity>) -> Seq<LockedView> {
    packages.map_values(|package: LockedPackageIdentity| package@)
}

/// The text of a table entry that has to be there, or what is wrong.
pub open spec fn required_toml_text(
    table: DocumentView,
    field: Seq<char>,
    context: Seq<char>,
) -> Result<Seq<char>, Seq<char>> {
    match member_text(table, field) {
        Some(text) => Ok(text),
        None => Err(context + " `"@ + field + "` is missing or not a string"@),
    }
}

/// The text of a table entry that may be missing, or what is wrong.
pub open spec fn optional_toml_text(
    table: DocumentView,
    field: Seq<char>,
    context: Seq<char>,
) -> Result<Option<Seq<char>>, Seq<char>> {
    match member_of(table, field) {
        None => Ok(None),
        Some(value) => match text_of_value(value) {
            Some(text) => Ok(Some(text)),
            None => Err(context + " `"@ + field + "` is not a string"@),
        },
    }
}

fn required_toml_string(table: &Document, field: &str, context: &str) -> (result: Result<
    String,
    WasmBuildError,
>)
    ensures
        match (result, required_toml_text(table@, field@, context@)) {
            (Ok(text), Ok(expected)) => text@ == expected,
            (Err(WasmBuildError::InvalidMetadata { message }), Err(expected)) => message@
                == expected,
            _ => false,
        },
{
    match table.get_text(field) {
        Some(text) => Ok(text.clone()),
        None => {
            let mut message = context.to_owned();
            message.append(" `");
            message.append(field);
            message.append("` is missing or not a string");
            Err(WasmBuildError::InvalidMetadata { message })
        },
    }
}

fn optional_toml_string(table: &Document, field: &str, context: &str) -> (result: Result<
    Option<String>,
    WasmBuildError,
>)
    ensures
        match (result, optional_toml_text(table@, field@, context@)) {
            (Ok(text), Ok(expected)) => optional_text_view(text) == expected,
            (Err(WasmBuildError::InvalidMetadata { message }), Err(expected)) => message@
                == expected,
            _ => false,
        },
{
    match table.get(field) {
        None => Ok(None),
        Some(value) => match value.as_text() {
            Some(text) => Ok(Some(text.clone())),
            None => {
                let mut message = context.to_owned();
                message.append(" `");
                message.append(field);
                message.append("` is not a string");
                Err(WasmBuildError::InvalidMetadata { message })
            },
        },
    }
}

/// The package that a lockfile entry pins; `None` for an entry without a source.
pub open spec fn locked_entry(value: DocumentView) -> Result<Option<LockedView>, Seq<char>> {
    if !(value.shape is Record) {
        Err("Cargo lockfile package entry is not a table"@)
    } else {
        match member_of(value, "source"@) {
            None => Ok(None),
            Some(found) => match text_of_value(found) {
                None => Err("Cargo lockfile package source is not a string"@),
                Some(source) => {
                    let context = "Cargo lockfile package"@;
                    match required_toml_text(value, "name"@, context) {
                        Err(message) => Err(message),
                        Ok(name) => match required_toml_text(value, "version"@, context) {
                            Err(message) => Err(message),
                            Ok(version) => match optional_toml_text(value, "checksum"@, context) {
                                Err(message) => Err(message),
                                Ok(checksum) => Ok(
                                    Some(LockedView { name, version, source, checksum }),
                                ),
                            },
                        },
                    }
                },
            },
        }
    }
}

fn read_locked_entry(value: &Document) -> (result: Result<
    Option<LockedPackageIdentity>,
    WasmBuildError,
>)
    ensures
        match (result, locked_entry(value@)) {
            (Ok(None), Ok(None)) => true,
            (Ok(Some(package)), Ok(Some(expected))) => package@ == expected,
            (Err(WasmBuildError::InvalidMetadata { message }), Err(expected)) => message@
                == expected,
            _ => false,
        },
{
    if !value.is_record() {
        return Err(invalid_metadata("Cargo lockfile package entry is not a table"));
    }
    let source = match value.get("source") {
        None => return Ok(None),
        Some(found) => match found.as_text() {
            None => return Err(invalid_metadata("Cargo lockfile package source is not a string")),
            Some(source) => source.clone(),
        },
    };
    let name = match required_toml_string(value, "name", "Cargo lockfile package") {
        Ok(name) => name,
        Err(error) => return Err(error),
    };
    let version = match required_toml_string(value, "version", "Cargo lockfile package") {
        Ok(version) => version,
        Err(error) => return Err(error),
    };
    match optional_toml_string(value, "checksum", "Cargo lockfile package") {
        Ok(checksum) => Ok(Some(LockedPackageIdentity { name, version, source, checksum })),
        Err(error) => Err(error),
    }
}

/// The packages that a list of lockfile entries pins, or what is wrong with the first bad one.
pub open spec fn locked_entries(values: Seq<DocumentView>) -> Result<Seq<LockedView>, Seq<char>>
    decreases values.len(),
{
    if values.len() == 0 {
        Ok(seq![])
    } else {
        match locked_entries(values.drop_last()) {
            Err(message) => Err(message),
            Ok(packages) => match locked_entry(values.last()) {
                Err(message) => Err(message),
                Ok(None) => Ok(packages),
                Ok(Some(package)) => Ok(packages.push(package)),
            },
        }
    }
}

proof fn lemma_locked_error(values: Seq<DocumentView>, upto: int)
    requires
        0 <= upto <= values.len(),
        locked_entries(values.take(upto)) is Err,
    ensures
        locked_entries(values) == locked_entries(values.take(upto)),
    decreases values.len() - upto,
{
    if upto < values.len() {
        assert(values.take(upto + 1).drop_last() =~= values.take(upto));
        lemma_locked_error(values, upto + 1);
    } else {
        assert(values.take(upto) =~= values);
    }
}

/// The packages that a lockfile pins, or what is wrong with it.
pub open spec fn locked_of(lock: DocumentView) -> Result<Seq<LockedView>, Seq<char>> {
    match member_items(lock, "package"@) {
        None => Ok(seq![]),
        Some(values) => locked_entries(values),
    }
}

/// The packages that a lockfile pins.
pub fn locked_packages(lock: &Document) -> (result: Result<
    Vec<LockedPackageIdentity>,
    WasmBuildError,
>)
    ensures
        match (result, locked_of(lock@)) {
            (Ok(packages), Ok(expected)) => locked_views(packages@) == expected,
            (Err(WasmBuildError::InvalidMetadata { message }), Err(expected)) => message@
                == expected,
            _ => false,
        },
{
    let mut packages: Vec<LockedPackageIdentity> = Vec::new();
    assert(locked_views(packages@) =~= seq![]);
    let values = match lock.get_items("package") {
        None => return Ok(packages),
        Some(values) => values,
    };
    let ghost all = documents_view(values@);
    let mut at: usize = 0;
    assert(all.take(0) =~= seq![]);
    while at < values.len()
        invariant
            at <= values@.len(),
            all == documents_view(values@),
            Some(all) == member_items(lock@, "package"@),
            locked_entries(all.take(at as int)) == Ok::<Seq<LockedView>, Seq<char>>(
                locked_views(packages@),
            ),
        decreases values.len() - at,
    {
        proof {
            assert(all.take(at + 1).drop_last() =~= all.take(at as int));
            assert(all.take(at + 1).last() == values@[at as int]@);
        }
        match read_locked_entry(&values[at]) {
            Err(error) => {
                proof {
                    lemma_locked_error(all, at + 1);
                }
                return Err(error);
            },
            Ok(None) => {},
            Ok(Some(package)) => {
                let ghost before = locked_views(packages@);
                packages.push(package);
                assert(locked_views(packages@) =~= before.push(package@));
            },
        }
        at = at + 1;
    }
    assert(all.take(at as int) =~= all);
    Ok(packages)
}

/// The packages that the lockfile of a workspace pins; a missing lockfile pins none.
pub fn locked_package_identities(workspace_root: &[u8], lockfile: FileText) -> (result: Result<
    Vec<LockedPackageIdentity>,
    WasmBuildError,
>)
    ensures
        match lockfile {
            FileText::Missing => {
                &&& result matches Ok(packages)
                &&& locked_views(packages@) == Seq::<LockedView>::empty()
            },
            FileText::Failed { message } => {
                &&& result matches Err(WasmBuildError::Io { operation, path, source })
                &&& operation@ == "read Cargo lockfile for semantic projection"@
                &&& path@ == joined(workspace_root@, encode_utf8("Cargo.lock"@))
                &&& source@ == message@
            },
            FileText::Text(contents) => match toml_of(contents@) {
                Err(cause) => {
                    &&& result matches Err(WasmBuildError::InvalidMetadata { message })
                    &&& message@ == "Cargo lockfile could not be projected as TOML: "@ + cause
                },
                Ok(lock) => match (result, locked_of(lock)) {
                    (Ok(packages), Ok(expected)) => locked_views(packages@) == expected,
                    (Err(WasmBuildError::InvalidMetadata { message }), Err(expected)) => message@
                        == expected,
                    _ => false,
                },
            },
        },
{
    match lockfile {
        FileText::Missing => {
            let packages: Vec<LockedPackageIdentity> = Vec::new();
            assert(locked_views(packages@) =~= Seq::<LockedView>::empty());
            Ok(packages)
        },
        FileText::Failed { message } => Err(
            WasmBuildError::Io {
                operation: "read Cargo lockfile for semantic projection".to_owned(),
                path: join(workspace_root, "Cargo.lock".as_bytes()),
                source: message,
            },
        ),
        FileText::Text(contents) => match read_toml(contents.as_str()) {
            Err(cause) => {
                let mut message = "Cargo lockfile could not be projected as TOML: ".to_owned();
                message.append(cause.as_str());
                Err(WasmBuildError::InvalidMetadata { message })
            },
            Ok(lock) => locked_packages(&lock),
        },
    }
}

/// Whether a locked package is the one that a metadata package came from.
pub open spec fn locks(locked: LockedView, package: PackageView) -> bool {
    &&& locked.name == package.name
    &&& locked.version == package.version
    &&& Some(locked.source) == package.source
}

/// The first locked package from which a metadata package came, at or after `from`.
pub open spec fn locked_for(
    locked: Seq<LockedView>,
    package: PackageView,
    from: int,
) -> Option<LockedView>
    decreases locked.len() - from,
{
    if from < 0 || from >= locked.len() {
        None
    } else if locks(locked[from], package) {
        Some(locked[from])
    } else {
        locked_for(locked, package, from + 1)
    }
}

/// Whether a locked package is pinned to exact contents.
pub open spec fn is_exact(locked: LockedView) -> bool {
    ||| "registry+"@.is_prefix_of(locked.source) && locked.checksum is Some
    ||| "git+"@.is_prefix_of(locked.source) && locked.source.contains('#')
}

/// What identifies a package independently of the checkout, or `None` when nothing exact does.
///
/// A package at the workspace root or outside the workspace cannot be told
/// apart from the rest of its directory.
pub open spec fn identity_fields(
    package: PackageView,
    workspace_root: Seq<u8>,
    locked: Seq<LockedView>,
) -> Option<Seq<Field>> {
    let head = seq![
        field("name"@, encode_utf8(package.name)),
        field("version"@, encode_utf8(package.version)),
    ];
    if package.is_local {
        match (stripped(package.manifest_path, workspace_root), parent_path(package.manifest_path)) {
            (Some(manifest), Some(root)) => if same_path(root, workspace_root) {
                None
            } else {
                Some(head + seq![field("local-manifest"@, manifest)])
            },
            _ => None,
        }
    } else if package.source is None {
        None
    } else {
        match locked_for(locked, package, 0) {
            None => None,
            Some(found) => if is_exact(found) {
                let checksum = match found.checksum {
                    Some(text) => text,
                    None => seq![],
                };
                Some(
                    head + seq![
                        field("external-package-id"@, encode_utf8(package.id)),
                        field("external-source"@, encode_utf8(found.source)),
                        field("external-checksum"@, encode_utf8(checksum)),
                    ],
                )
            } else {
                None
            },
        }
    }
}

fn find_locked<'a>(
    package: &MetadataPackage,
    locked: &'a Vec<LockedPackageIdentity>,
) -> (found: Option<&'a LockedPackageIdentity>)
    ensures
        found is Some == locked_for(locked_views(locked@), package@, 0) is Some,
        found matches Some(entry) ==> Some(entry@) == locked_for(
            locked_views(locked@),
            package@,
            0,
        ),
{
    let mut at: usize = 0;
    while at < locked.len()
        invariant
            at <= locked@.len(),
            locked_for(locked_views(locked@), package@, 0) == locked_for(
                locked_views(locked@),
                package@,
                at as int,
            ),
        decreases locked.len() - at,
    {
        let entry = &locked[at];
        assert(locked_views(locked@)[at as int] == entry@);
        let same_source = match &package.source {
            Some(source) => text_equal(entry.source.as_str(), source.as_str()),
            None => false,
        };
        if same_source && text_equal(entry.name.as_str(), package.name.as_str()) && text_equal(
            entry.version.as_str(),
            package.version.as_str(),
        ) {
            return Some(entry);
        }
        at = at + 1;
    }
    None
}

/// The checkout-independent identity of a package, or `None` when nothing exact identifies it.
pub fn semantic_package_identity(
    package: &MetadataPackage,
    workspace_root: &[u8],
    locked: &Vec<LockedPackageIdentity>,
) -> (identity: Option<InputDigest>)
    ensures
        match (identity, identity_fields(package@, workspace_root@, locked_views(locked@))) {
            (Some(digest), Some(fields)) => digest@ == digest_of(
                "wasm-semantic-package-identity-v1"@,
                fields,
            ),
            (None, None) => true,
            _ => false,
        },
{
    let mut hasher = InputHasher::new("wasm-semantic-package-identity-v1");
    let ghost domain = hasher@;
    hasher.field("name", package.name.as_str().as_bytes());
    hasher.field("version", package.version.as_str().as_bytes());
    if package.is_local {
        let manifest = match strip_prefix(package.manifest_path.as_slice(), workspace_root) {
            Some(manifest) => manifest,
            None => return None,
        };
        let root = match parent(package.manifest_path.as_slice()) {
            Some(root) => root,
            None => return None,
        };
        if paths_equal(root.as_slice(), workspace_root) {
            return None;
        }
        hasher.field("local-manifest", manifest.as_slice());
    } else {
        if package.source.is_none() {
            return None;
        }
        let found = match find_locked(package, locked) {
            Some(found) => found,
            None => return None,
        };
        let pinned = (has_prefix(found.source.as_str(), "registry+") && found.checksum.is_some())
            || (has_prefix(found.source.as_str(), "git+") && has_char(found.source.as_str(), '#'));
        if !pinned {
            return None;
        }
        hasher.field("external-package-id", package.id.as_str().as_bytes());
        hasher.field("external-source", found.source.as_str().as_bytes());
        let checksum = match &found.checksum {
            Some(text) => text.clone(),
            None => String::new(),
        };
        hasher.field("external-checksum", checksum.as_str().as_bytes());
        assert(found.checksum is None ==> checksum@ =~= seq![]);
    }
    proof {
        let fields = identity_fields(package@, workspace_root@, locked_views(locked@))->0;
        assert(hasher@ =~= domain + fields);
    }
    Some(hasher.finish())
}

/// A package identity under the package's metadata identity.
#[derive(Debug)]
pub struct PackageIdentity {
    /// Metadata identity of the package.
    pub id: String,
    /// Checkout-independent identity of the package.
    pub digest: InputDigest,
}

/// What a package identity says.
pub struct IdentityView {
    /// Metadata identity of the package.
    pub id: Seq<char>,
    /// Checkout-independent identity of the package.
    pub digest: Seq<u8>,
}

impl View for PackageIdentity {
    type V = IdentityView;

    open spec fn view(&self) -> IdentityView {
        IdentityView { id: self.id@, digest: self.digest@ }
    }
}

/// Views of a list of package identities.
pub open spec fn identity_views(identities: Seq<PackageIdentity>) -> Seq<IdentityView> {
    identities.map_values(|identity: PackageIdentity| identity@)
}

/// The identity of the package `id`, from `from` on.
pub open spec fn identity_for(
    identities: Seq<IdentityView>,
    id: Seq<char>,
    from: int,
) -> Option<Seq<u8>>
    decreases identities.len() - from,
{
    if from < 0 || from >= identities.len() {
        None
    } else if identities[from].id == id {
        Some(identities[from].digest)
    } else {
        identity_for(identities, id, from + 1)
    }
}

fn find_identity(identities: &Vec<PackageIdentity>, id: &str) -> (found: Option<InputDigest>)
    ensures
        found is Some == identity_for(identity_views(identities@), id@, 0) is Some,
        found matches Some(digest) ==> Some(digest@) == identity_for(
            identity_views(identities@),
            id@,
            0,
        ),
{
    let mut at: usize = 0;
    while at < identities.len()
        invariant
            at <= identities@.len(),
            identity_for(identity_views(identities@), id@, 0) == identity_for(
                identity_views(identities@),
                id@,
                at as int,
            ),
        decreases identities.len() - at,
    {
        assert(identity_views(identities@)[at as int] == identities@[at as int]@);
        if text_equal(identities[at].id.as_str(), id) {
            return Some(identities[at].digest);
        }
        at = at + 1;
    }
    None
}

/// One dependency of a package as its projection takes it in.
#[derive(Debug)]
pub struct DependencyProjection {
    /// Name under which the dependency is used.
    pub name: String,
    /// Identity of the package that is depended on.
    pub identity: InputDigest,
    /// The kinds of the dependency, as JSON.
    pub kinds: String,
}

/// What a dependency projection says.
pub struct DependencyProjectionView {
    /// Name under which the dependency is used.
    pub name: Seq<char>,
    /// Identity of the package that is depended on.
    pub identity: Seq<u8>,
    /// The kinds of the dependency, as JSON.
    pub kinds: Seq<char>,
}

impl View for DependencyProjection {
    type V = DependencyProjectionView;

    open spec fn view(&self) -> DependencyProjectionView {
        DependencyProjectionView {
            name: self.name@,
            identity: self.identity@,
            kinds: self.kinds@,
        }
    }
}

/// Views of a list of dependency projections.
pub open spec fn dependency_projection_views(
    dependencies: Seq<DependencyProjection>,
) -> Seq<DependencyProjectionView> {
    dependencies.map_values(|dependency: DependencyProjection| dependency@)
}

/// Whether a dependency stands before another: by name, then identity, then kinds.
pub open spec fn dependency_before() -> spec_fn(
    DependencyProjectionView,
    DependencyProjectionView,
) -> bool {
    |left: DependencyProjectionView, right: DependencyProjectionView|
        {
            if left.name != right.name {
                bytes_less(encode_utf8(left.name), encode_utf8(right.name))
            } else if left.identity != right.identity {
                bytes_less(left.identity, right.identity)
            } else {
                bytes_less(encode_utf8(left.kinds), encode_utf8(right.kinds))
            }
        }
}

impl Ranked for DependencyProjection {
    open spec fn precedes(&self, other: &Self) -> bool {
        dependency_before()(self@, other@)
    }

    fn comes_before(&self, other: &Self) -> (before: bool) {
        if !text_equal(self.name.as_str(), other.name.as_str()) {
            bytes_before(self.name.as_str().as_bytes(), other.name.as_str().as_bytes())
        } else if self.identity != other.identity {
            self.identity.comes_before(&other.identity)
        } else {
            bytes_before(self.kinds.as_str().as_bytes(), other.kinds.as_str().as_bytes())
        }
    }
}

/// The features that a list of values names, or what is wrong with the first bad one.
pub open spec fn feature_names(values: Seq<DocumentView>) -> Result<Seq<Seq<char>>, Seq<char>>
    decreases values.len(),
{
    if values.len() == 0 {
        Ok(seq![])
    } else {
        match feature_names(values.drop_last()) {
            Err(message) => Err(message),
            Ok(names) => match text_of_value(values.last()) {
                Some(name) => Ok(names.push(name)),
                None => Err("Cargo metadata dependency feature is not a string"@),
            },
        }
    }
}

proof fn lemma_feature_error(values: Seq<DocumentView>, upto: int)
    requires
        0 <= upto <= values.len(),
        feature_names(values.take(upto)) is Err,
    ensures
        feature_names(values) == feature_names(values.take(upto)),
    decreases values.len() - upto,
{
    if upto < values.len() {
        assert(values.take(upto + 1).drop_last() =~= values.take(upto));
        lemma_feature_error(values, upto + 1);
    } else {
        assert(values.take(upto) =~= values);
    }
}

fn read_features(values: &Vec<Document>) -> (result: Result<Vec<String>, WasmBuildError>)
    ensures
        match (result, feature_names(documents_view(values@))) {
            (Ok(names), Ok(expected)) => texts(names@) == expected,
            (Err(WasmBuildError::InvalidMetadata { message }), Err(expected)) => message@
                == expected,
            _ => false,
        },
{
    let ghost all = documents_view(values@);
    let mut names: Vec<String> = Vec::new();
    let mut at: usize = 0;
    assert(texts(names@) =~= seq![]);
    assert(all.take(0) =~= seq![]);
    while at < values.len()
        invariant
            at <= values@.len(),
            all == documents_view(values@),
            feature_names(all.take(at as int)) == Ok::<Seq<Seq<char>>, Seq<char>>(texts(names@)),
        decreases values.len() - at,
    {
        proof {
            assert(all.take(at + 1).drop_last() =~= all.take(at as int));
            assert(all.take(at + 1).last() == values@[at as int]@);
        }
        match values[at].as_text() {
            None => {
                proof {
                    lemma_feature_error(all, at + 1);
                }
                return Err(invalid_metadata("Cargo metadata dependency feature is not a string"));
            },
            Some(name) => {
                let ghost before = texts(names@);
                names.push(name.clone());
                assert(texts(names@) =~= before.push(name@));
            },
        }
        at = at + 1;
    }
    assert(all.take(at as int) =~= all);
    Ok(names)
}

/// The projection of one dependency value, or what is wrong with it.
pub open spec fn projected_dependency(
    value: DocumentView,
    identities: Seq<IdentityView>,
) -> Result<DependencyProjectionView, Seq<char>> {
    match required_text(value, "name"@) {
        Err(message) => Err(message),
        Ok(name) => match required_text(value, "pkg"@) {
            Err(message) => Err(message),
            Ok(id) => match identity_for(identities, id, 0) {
                None => Err(
                    "dependency `"@ + id + "` is outside the selected package closure"@,
                ),
                Some(identity) => match member_of(value, "dep_kinds"@) {
                    None => Err("Cargo metadata dependency has no kind array"@),
                    Some(kinds) => Ok(
                        DependencyProjectionView { name, identity, kinds: kinds.rendered },
                    ),
                },
            },
        },
    }
}

fn read_dependency(value: &Document, identities: &Vec<PackageIdentity>) -> (result: Result<
    DependencyProjection,
    WasmBuildError,
>)
    ensures
        match (result, projected_dependency(value@, identity_views(identities@))) {
            (Ok(dependency), Ok(expected)) => dependency@ == expected,
            (Err(WasmBuildError::InvalidMetadata { message }), Err(expected)) => message@
                == expected,
            _ => false,
        },
{
    let name = match required_string(value, "name") {
        Ok(name) => name,
        Err(error) => return Err(error),
    };
    let id = match required_string(value, "pkg") {
        Ok(id) => id,
        Err(error) => return Err(error),
    };
    let identity = match find_identity(identities, id.as_str()) {
        Some(identity) => identity,
        None => {
            let mut message = "dependency `".to_owned();
            message.append(id.as_str());
            message.append("` is outside the selected package closure");
            return Err(WasmBuildError::InvalidMetadata { message });
        },
    };
    match value.get("dep_kinds") {
        None => Err(invalid_metadata("Cargo metadata dependency has no kind array")),
        Some(kinds) => Ok(DependencyProjection { name, identity, kinds: kinds.rendered.clone() }),
    }
}

/// The projections of a list of dependency values, or what is wrong with the first bad one.
pub open spec fn projected_dependencies(
    values: Seq<DocumentView>,
    identities: Seq<IdentityView>,
) -> Result<Seq<DependencyProjectionView>, Seq<char>>
    decreases values.len(),
{
    if values.len() == 0 {
        Ok(seq![])
    } else {
        match projected_dependencies(values.drop_last(), identities) {
            Err(message) => Err(message),
            Ok(dependencies) => match projected_dependency(values.last(), identities) {
                Err(message) => Err(message),
                Ok(dependency) => Ok(dependencies.push(dependency)),
            },
        }
    }
}

proof fn lemma_projected_error(values: Seq<DocumentView>, identities: Seq<IdentityView>, upto: int)
    requires
        0 <= upto <= values.len(),
        projected_dependencies(values.take(upto), identities) is Err,
    ensures
        projected_dependencies(values, identities) == projected_dependencies(
            values.take(upto),
            identities,
        ),
    decreases values.len() - upto,
{
    if upto < values.len() {
        assert(values.take(upto + 1).drop_last() =~= values.take(upto));
        lemma_projected_error(values, identities, upto + 1);
    } else {
        assert(values.take(upto) =~= values);
    }
}

fn read_dependencies(values: &Vec<Document>, identities: &Vec<PackageIdentity>) -> (result: Result<
    Vec<DependencyProjection>,
    WasmBuildError,
>)
    ensures
        match (
            result,
            projected_dependencies(documents_view(values@), identity_views(identities@)),
        ) {
            (Ok(dependencies), Ok(expected)) => dependency_projection_views(dependencies@)
                == expected,
            (Err(WasmBuildError::InvalidMetadata { message }), Err(expected)) => message@
                == expected,
            _ => false,
        },
{
    let ghost all = documents_view(values@);
    let ghost known = identity_views(identities@);
    let mut dependencies: Vec<DependencyProjection> = Vec::new();
    let mut at: usize = 0;
    assert(dependency_projection_views(dependencies@) =~= seq![]);
    assert(all.take(0) =~= seq![]);
    while at < values.len()
        invariant
            at <= values@.len(),
            all == documents_view(values@),
            known == identity_views(identities@),
            projected_dependencies(all.take(at as int), known) == Ok::<
                Seq<DependencyProjectionView>,
                Seq<char>,
            >(dependency_projection_views(dependencies@)),
        decreases values.len() - at,
    {
        proof {
            assert(all.take(at + 1).drop_last() =~= all.take(at as int));
            assert(all.take(at + 1).last() == values@[at as int]@);
        }
        match read_dependency(&values[at], identities) {
            Err(error) => {
                proof {
                    lemma_projected_error(all, known, at + 1);
                }
                return Err(error);
            },
            Ok(dependency) => {
                let ghost before = dependency_projection_views(dependencies@);
                dependencies.push(dependency);
                assert(dependency_projection_views(dependencies@) =~= before.push(dependency@));
            },
        }
        at = at + 1;
    }
    assert(all.take(at as int) =~= all);
    Ok(dependencies)
}

/// Fields that stand for the values of a package that Cargo exposes to compilation.
pub open spec fn semantic_value_fields(fields: Seq<SemanticFieldView>) -> Seq<Field>
    decreases fields.len(),
{
    if fields.len() == 0 {
        seq![]
    } else {
        semantic_value_fields(fields.drop_last()) + seq![
            field("package-field-name"@, encode_utf8(fields.last().name)),
            match fields.last().value {
                Some(value) => field("package-field-value"@, encode_utf8(value)),
                None => field("package-field-missing"@, seq![]),
            },
        ]
    }
}

/// Fields that stand for enabled features.
pub open spec fn feature_fields(names: Seq<Seq<char>>) -> Seq<Field> {
    names.map_values(|name: Seq<char>| field("enabled-feature"@, encode_utf8(name)))
}

/// Fields that stand for dependencies.
pub open spec fn dependency_fields(dependencies: Seq<DependencyProjectionView>) -> Seq<Field>
    decreases dependencies.len(),
{
    if dependencies.len() == 0 {
        seq![]
    } else {
        dependency_fields(dependencies.drop_last()) + seq![
            field("dependency-name"@, encode_utf8(dependencies.last().name)),
            field("dependency-identity"@, dependencies.last().identity),
            field("dependency-kinds"@, encode_utf8(dependencies.last().kinds)),
        ]
    }
}

/// Everything of a resolved package that its compilation can see, or what is wrong with its node.
pub open spec fn projection_fields(
    package: PackageView,
    node: DocumentView,
    identities: Seq<IdentityView>,
) -> Result<Seq<Field>, Seq<char>> {
    match member_items(node, "features"@) {
        None => Err("Cargo metadata dependency node has no features array"@),
        Some(features) => match feature_names(features) {
            Err(message) => Err(message),
            Ok(names) => match member_items(node, "deps"@) {
                None => Err("Cargo metadata dependency node has no deps array"@),
                Some(deps) => match projected_dependencies(deps, identities) {
                    Err(message) => Err(message),
                    Ok(dependencies) => Ok(
                        semantic_value_fields(package.semantic_fields) + feature_fields(
                            sorted_by(names, text_before()),
                        ) + dependency_fields(sorted_by(dependencies, dependency_before())),
                    ),
                },
            },
        },
    }
}

/// The projection of one resolved package.
pub fn semantic_package_projection(
    package: &MetadataPackage,
    node: &Document,
    identities: &Vec<PackageIdentity>,
) -> (result: Result<InputDigest, WasmBuildError>)
    ensures
        match (result, projection_fields(package@, node@, identity_views(identities@))) {
            (Ok(digest), Ok(fields)) => digest@ == digest_of(
                "wasm-semantic-package-projection-v1"@,
                fields,
            ),
            (Err(WasmBuildError::InvalidMetadata { message }), Err(expected)) => message@
                == expected,
            _ => false,
        },
{
    let mut hasher = InputHasher::new("wasm-semantic-package-projection-v1");
    let ghost domain = hasher@;
    let ghost values = semantic_views(package.semantic_fields@);
    let mut at: usize = 0;
    assert(values.take(0) =~= seq![]);
    assert(domain + semantic_value_fields(values.take(0)) =~= domain);
    while at < package.semantic_fields.len()
        invariant
            at <= package.semantic_fields@.len(),
            values == semantic_views(package.semantic_fields@),
            hasher.wf(),
            !hasher.in_file(),
            hasher@ == domain + semantic_value_fields(values.take(at as int)),
        decreases package.semantic_fields.len() - at,
    {
        let semantic = &package.semantic_fields[at];
        proof {
            assert(values.take(at + 1).drop_last() =~= values.take(at as int));
            assert(values.take(at + 1).last() == semantic@);
        }
        hasher.field("package-field-name", semantic.name.as_str().as_bytes());
        match &semantic.value {
            Some(value) => {
                hasher.field("package-field-value", value.as_str().as_bytes());
            },
            None => {
                let empty: Vec<u8> = Vec::new();
                assert(empty@ =~= seq![]);
                hasher.field("package-field-missing", empty.as_slice());
            },
        }
        assert(hasher@ =~= domain + semantic_value_fields(values.take(at + 1)));
        at = at + 1;
    }
    assert(values.take(at as int) =~= values);
    let ghost first = hasher@;

    let listed = match node.get_items("features") {
        Some(listed) => listed,
        None => {
            return Err(invalid_metadata("Cargo metadata dependency node has no features array"))
        },
    };
    let mut features = match read_features(listed) {
        Ok(features) => features,
        Err(error) => return Err(error),
    };
    let ghost given = features@;
    sort_ranked(&mut features);
    let ghost names = texts(features@);
    proof {
        lemma_ranked_view(given, |string: String| string@, text_before());
    }
    at = 0;
    assert(first + feature_fields(names.take(0)) =~= first);
    while at < features.len()
        invariant
            at <= features@.len(),
            names == texts(features@),
            hasher.wf(),
            !hasher.in_file(),
            hasher@ == first + feature_fields(names.take(at as int)),
        decreases features.len() - at,
    {
        hasher.field("enabled-feature", features[at].as_str().as_bytes());
        proof {
            assert(names.take(at + 1) =~= names.take(at as int).push(names[at as int]));
            assert(feature_fields(names.take(at + 1)) =~= feature_fields(
                names.take(at as int),
            ).push(field("enabled-feature"@, encode_utf8(names[at as int]))));
            assert(hasher@ =~= first + feature_fields(names.take(at + 1)));
        }
        at = at + 1;
    }
    assert(names.take(at as int) =~= names);
    let ghost second = hasher@;

    let listed = match node.get_items("deps") {
        Some(listed) => listed,
        None => return Err(invalid_metadata("Cargo metadata dependency node has no deps array")),
    };
    let mut dependencies = match read_dependencies(listed, identities) {
        Ok(dependencies) => dependencies,
        Err(error) => return Err(error),
    };
    let ghost found = dependencies@;
    sort_ranked(&mut dependencies);
    let ghost ordered = dependency_projection_views(dependencies@);
    proof {
        lemma_ranked_view(
            found,
            |dependency: DependencyProjection| dependency@,
            dependency_before(),
        );
    }
    at = 0;
    assert(ordered.take(0) =~= seq![]);
    assert(second + dependency_fields(ordered.take(0)) =~= second);
    while at < dependencies.len()
        invariant
            at <= dependencies@.len(),
            ordered == dependency_projection_views(dependencies@),
            hasher.wf(),
            !hasher.in_file(),
            hasher@ == second + dependency_fields(ordered.take(at as int)),
        decreases dependencies.len() - at,
    {
        let dependency = &dependencies[at];
        proof {
            assert(ordered.take(at + 1).drop_last() =~= ordered.take(at as int));
            assert(ordered.take(at + 1).last() == dependency@);
        }
        hasher.field("dependency-name", dependency.name.as_str().as_bytes());
        hasher.field("dependency-identity", dependency.identity.as_bytes().as_slice());
        hasher.field("dependency-kinds", dependency.kinds.as_str().as_bytes());
        assert(hasher@ =~= second + dependency_fields(ordered.take(at + 1)));
        at = at + 1;
    }
    assert(ordered.take(at as int) =~= ordered);
    proof {
        let fields = projection_fields(package@, node@, identity_views(identities@))->Ok_0;
        assert(hasher@ =~= domain + fields);
    }
    Ok(hasher.finish())
}

/// The identities of the packages of a closure, in order.
///
/// `Ok(None)` when nothing exact identifies one of them; the message when one is missing.
pub open spec fn closure_identities(
    ids: Seq<Seq<char>>,
    packages: Seq<PackageView>,
    workspace_root: Seq<u8>,
    locked: Seq<LockedView>,
) -> Result<Option<Seq<IdentityView>>, Seq<char>>
    decreases ids.len(),
{
    if ids.len() == 0 {
        Ok(Some(seq![]))
    } else {
        match closure_identities(ids.drop_last(), packages, workspace_root, locked) {
            Err(message) => Err(message),
            Ok(None) => Ok(None),
            Ok(Some(identities)) => match package_index(packages, ids.last(), 0) {
                None => Err("resolved package `"@ + ids.last() + "` is missing"@),
                Some(at) => match identity_fields(packages[at], workspace_root, locked) {
                    None => Ok(None),
                    Some(fields) => Ok(
                        Some(
                            identities.push(
                                IdentityView {
                                    id: ids.last(),
                                    digest: digest_of(
                                        "wasm-semantic-package-identity-v1"@,
                                        fields,
                                    ),
                                },
                            ),
                        ),
                    ),
                },
            },
        }
    }
}

proof fn lemma_identities_stop(
    ids: Seq<Seq<char>>,
    packages: Seq<PackageView>,
    workspace_root: Seq<u8>,
    locked: Seq<LockedView>,
    upto: int,
)
    requires
        0 <= upto <= ids.len(),
        !(closure_identities(ids.take(upto), packages, workspace_root, locked) matches Ok(Some(_))),
    ensures
        closure_identities(ids, packages, workspace_root, locked) == closure_identities(
            ids.take(upto),
            packages,
            workspace_root,
            locked,
        ),
    decreases ids.len() - upto,
{
    if upto < ids.len() {
        assert(ids.take(upto + 1).drop_last() =~= ids.take(upto));
        lemma_identities_stop(ids, packages, workspace_root, locked, upto + 1);
    } else {
        assert(ids.take(upto) =~= ids);
    }
}

fn identify_closure(
    closure: &Vec<String>,
    packages: &Vec<MetadataPackage>,
    workspace_root: &[u8],
    locked: &Vec<LockedPackageIdentity>,
) -> (result: Result<Option<Vec<PackageIdentity>>, WasmBuildError>)
    ensures
        match (
            result,
            closure_identities(
                texts(closure@),
                packages_view(packages@),
                workspace_root@,
                locked_views(locked@),
            ),
        ) {
            (Ok(None), Ok(None)) => true,
            (Ok(Some(identities)), Ok(Some(expected))) => identity_views(identities@) == expected,
            (Err(WasmBuildError::InvalidMetadata { message }), Err(expected)) => message@
                == expected,
            _ => false,
        },
{
    let ghost ids = texts(closure@);
    let ghost graph = packages_view(packages@);
    let ghost pinned = locked_views(locked@);
    let mut identities: Vec<PackageIdentity> = Vec::new();
    let mut at: usize = 0;
    assert(identity_views(identities@) =~= seq![]);
    assert(ids.take(0) =~= seq![]);
    while at < closure.len()
        invariant
            at <= closure@.len(),
            ids == texts(closure@),
            graph == packages_view(packages@),
            pinned == locked_views(locked@),
            closure_identities(ids.take(at as int), graph, workspace_root@, pinned) == Ok::<
                Option<Seq<IdentityView>>,
                Seq<char>,
            >(Some(identity_views(identities@))),
        decreases closure.len() - at,
    {
        proof {
            assert(ids.take(at + 1).drop_last() =~= ids.take(at as int));
            assert(ids.take(at + 1).last() == closure@[at as int]@);
        }
        let id = closure[at].as_str();
        let found = match find_package(packages, id) {
            Some(found) => found,
            None => {
                let mut message = "resolved package `".to_owned();
                message.append(id);
                message.append("` is missing");
                proof {
                    lemma_identities_stop(ids, graph, workspace_root@, pinned, at + 1);
                }
                return Err(WasmBuildError::InvalidMetadata { message });
            },
        };
        assert(graph[found as int] == packages@[found as int]@);
        match semantic_package_identity(&packages[found], workspace_root, locked) {
            None => {
                proof {
                    lemma_identities_stop(ids, graph, workspace_root@, pinned, at + 1);
                }
                return Ok(None);
            },
            Some(digest) => {
                let ghost before = identity_views(identities@);
                identities.push(PackageIdentity { id: closure[at].clone(), digest });
                assert(identity_views(identities@) =~= before.push(
                    IdentityView { id: ids[at as int], digest: digest@ },
                ));
            },
        }
        at = at + 1;
    }
    assert(ids.take(at as int) =~= ids);
    Ok(Some(identities))
}

/// What is wrong with the first node without an identity.
pub open spec fn node_id_violation(nodes: Seq<DocumentView>) -> Option<Seq<char>>
    decreases nodes.len(),
{
    if nodes.len() == 0 {
        None
    } else {
        match node_id_violation(nodes.drop_last()) {
            Some(message) => Some(message),
            None => match required_text(nodes.last(), "id"@) {
                Ok(_) => None,
                Err(message) => Some(message),
            },
        }
    }
}

proof fn lemma_node_id_stop(nodes: Seq<DocumentView>, upto: int)
    requires
        0 <= upto <= nodes.len(),
        node_id_violation(nodes.take(upto)) is Some,
    ensures
        node_id_violation(nodes) == node_id_violation(nodes.take(upto)),
    decreases nodes.len() - upto,
{
    if upto < nodes.len() {
        assert(nodes.take(upto + 1).drop_last() =~= nodes.take(upto));
        lemma_node_id_stop(nodes, upto + 1);
    } else {
        assert(nodes.take(upto) =~= nodes);
    }
}

fn check_node_ids(nodes: &Vec<Document>) -> (result: Result<(), WasmBuildError>)
    ensures
        match (result, node_id_violation(documents_view(nodes@))) {
            (Ok(()), None) => true,
            (Err(WasmBuildError::InvalidMetadata { message }), Some(expected)) => message@
                == expected,
            _ => false,
        },
{
    let ghost all = documents_view(nodes@);
    let mut at: usize = 0;
    assert(all.take(0) =~= seq![]);
    while at < nodes.len()
        invariant
            at <= nodes@.len(),
            all == documents_view(nodes@),
            node_id_violation(all.take(at as int)) is None,
        decreases nodes.len() - at,
    {
        proof {
            assert(all.take(at + 1).drop_last() =~= all.take(at as int));
            assert(all.take(at + 1).last() == nodes@[at as int]@);
        }
        match required_string(&nodes[at], "id") {
            Ok(_) => {},
            Err(error) => {
                proof {
                    lemma_node_id_stop(all, at + 1);
                }
                return Err(error);
            },
        }
        at = at + 1;
    }
    assert(all.take(at as int) =~= all);
    Ok(())
}

/// The last node with identity `id` among the first `upto`.
pub open spec fn node_for(nodes: Seq<DocumentView>, id: Seq<char>, upto: int) -> Option<DocumentView>
    decreases upto,
{
    if upto <= 0 || upto > nodes.len() {
        None
    } else if member_text(nodes[upto - 1], "id"@) == Some(id) {
        Some(nodes[upto - 1])
    } else {
        node_for(nodes, id, upto - 1)
    }
}

fn find_node<'a>(nodes: &'a Vec<Document>, id: &str) -> (found: Option<&'a Document>)
    ensures
        found is Some == node_for(documents_view(nodes@), id@, nodes@.len() as int) is Some,
        found matches Some(node) ==> Some(node@) == node_for(
            documents_view(nodes@),
            id@,
            nodes@.len() as int,
        ),
{
    let mut at: usize = nodes.len();
    while at > 0
        invariant
            at <= nodes@.len(),
            node_for(documents_view(nodes@), id@, nodes@.len() as int) == node_for(
                documents_view(nodes@),
                id@,
                at as int,
            ),
        decreases at,
    {
        assert(documents_view(nodes@)[at - 1] == nodes@[at - 1]@);
        let same = match nodes[at - 1].get_text("id") {
            Some(found) => text_equal(found.as_str(), id),
            None => false,
        };
        if same {
            return Some(&nodes[at - 1]);
        }
        at = at - 1;
    }
    None
}

/// A package of a closure with what its compilation can see.
#[derive(Debug)]
pub struct ProjectedPackage {
    /// Checkout-independent identity of the package.
    pub identity: InputDigest,
    /// Projection of the package.
    pub projection: InputDigest,
}

/// What a projected package says.
pub struct ProjectedView {
    /// Checkout-independent identity of the package.
    pub identity: Seq<u8>,
    /// Projection of the package.
    pub projection: Seq<u8>,
}

impl View for ProjectedPackage {
    type V = ProjectedView;

    open spec fn view(&self) -> ProjectedView {
        ProjectedView { identity: self.identity@, projection: self.projection@ }
    }
}

/// Views of a list of projected packages.
pub open spec fn projected_views(packages: Seq<ProjectedPackage>) -> Seq<ProjectedView> {
    packages.map_values(|package: ProjectedPackage| package@)
}

/// Whether a projected package stands before another: by identity.
pub open spec fn projected_before() -> spec_fn(ProjectedView, ProjectedView) -> bool {
    |left: ProjectedView, right: ProjectedView| bytes_less(left.identity, right.identity)
}

impl Ranked for ProjectedPackage {
    open spec fn precedes(&self, other: &Self) -> bool {
        projected_before()(self@, other@)
    }

    fn comes_before(&self, other: &Self) -> (before: bool) {
        self.identity.comes_before(&other.identity)
    }
}

/// The projections of the packages with the given identities, or what is wrong with the first bad
/// one.
pub open spec fn projected_packages(
    upto: int,
    packages: Seq<PackageView>,
    nodes: Seq<DocumentView>,
    identities: Seq<IdentityView>,
) -> Result<Seq<ProjectedView>, Seq<char>>
    decreases upto,
{
    if upto <= 0 || upto > identities.len() {
        Ok(seq![])
    } else {
        match projected_packages(upto - 1, packages, nodes, identities) {
            Err(message) => Err(message),
            Ok(projected) => {
                let id = identities[upto - 1].id;
                match node_for(nodes, id, nodes.len() as int) {
                    None => Err("resolved package `"@ + id + "` has no dependency node"@),
                    Some(node) => match projection_fields(
                        packages[package_index(packages, id, 0)->0],
                        node,
                        identities,
                    ) {
                        Err(message) => Err(message),
                        Ok(fields) => Ok(
                            projected.push(
                                ProjectedView {
                                    identity: identities[upto - 1].digest,
                                    projection: digest_of(
                                        "wasm-semantic-package-projection-v1"@,
                                        fields,
                                    ),
                                },
                            ),
                        ),
                    },
                }
            },
        }
    }
}

proof fn lemma_projection_stop(
    upto: int,
    packages: Seq<PackageView>,
    nodes: Seq<DocumentView>,
    identities: Seq<IdentityView>,
    end: int,
)
    requires
        0 <= upto <= end <= identities.len(),
        projected_packages(upto, packages, nodes, identities) is Err,
    ensures
        projected_packages(end, packages, nodes, identities) == projected_packages(
            upto,
            packages,
            nodes,
            identities,
        ),
    decreases end - upto,
{
    if upto < end {
        lemma_projection_stop(upto, packages, nodes, identities, end - 1);
    }
}

/// Whether every identity belongs to a known package.
pub open spec fn identities_known(identities: Seq<IdentityView>, packages: Seq<PackageView>) -> bool {
    forall|i: int|
        0 <= i < identities.len() ==> package_index(
            packages,
            (#[trigger] identities[i]).id,
            0,
        ) is Some
}

proof fn lemma_identities_known(
    ids: Seq<Seq<char>>,
    packages: Seq<PackageView>,
    workspace_root: Seq<u8>,
    locked: Seq<LockedView>,
)
    ensures
        closure_identities(ids, packages, workspace_root, locked) matches Ok(Some(identities))
            ==> identities_known(identities, packages),
    decreases ids.len(),
{
    if ids.len() > 0 {
        lemma_identities_known(ids.drop_last(), packages, workspace_root, locked);
    }
}

fn project_packages(
    packages: &Vec<MetadataPackage>,
    nodes: &Vec<Document>,
    identities: &Vec<PackageIdentity>,
) -> (result: Result<Vec<ProjectedPackage>, WasmBuildError>)
    requires
        identities_known(identity_views(identities@), packages_view(packages@)),
    ensures
        match (
            result,
            projected_packages(
                identities@.len() as int,
                packages_view(packages@),
                documents_view(nodes@),
                identity_views(identities@),
            ),
        ) {
            (Ok(projected), Ok(expected)) => projected_views(projected@) == expected,
            (Err(WasmBuildError::InvalidMetadata { message }), Err(expected)) => message@
                == expected,
            _ => false,
        },
{
    let ghost graph = packages_view(packages@);
    let ghost resolved = documents_view(nodes@);
    let ghost known = identity_views(identities@);
    let mut projected: Vec<ProjectedPackage> = Vec::new();
    let mut at: usize = 0;
    assert(projected_views(projected@) =~= seq![]);
    while at < identities.len()
        invariant
            at <= identities@.len(),
            graph == packages_view(packages@),
            resolved == documents_view(nodes@),
            known == identity_views(identities@),
            identities_known(known, graph),
            projected_packages(at as int, graph, resolved, known) == Ok::<
                Seq<ProjectedView>,
                Seq<char>,
            >(projected_views(projected@)),
        decreases identities.len() - at,
    {
        let identity = &identities[at];
        assert(known[at as int] == identity@);
        let node = match find_node(nodes, identity.id.as_str()) {
            Some(node) => node,
            None => {
                let mut message = "resolved package `".to_owned();
                message.append(identity.id.as_str());
                message.append("` has no dependency node");
                proof {
                    lemma_projection_stop(
                        at + 1,
                        graph,
                        resolved,
                        known,
                        identities@.len() as int,
                    );
                }
                return Err(WasmBuildError::InvalidMetadata { message });
            },
        };
        match find_package(packages, identity.id.as_str()) {
            Some(found) => {
                assert(graph[found as int] == packages@[found as int]@);
                match semantic_package_projection(&packages[found], node, identities) {
                    Err(error) => {
                        proof {
                            lemma_projection_stop(
                                at + 1,
                                graph,
                                resolved,
                                known,
                                identities@.len() as int,
                            );
                        }
                        return Err(error);
                    },
                    Ok(projection) => {
                        let ghost before = projected_views(projected@);
                        projected.push(
                            ProjectedPackage { identity: identity.digest, projection },
                        );
                        assert(projected_views(projected@) =~= before.push(
                            ProjectedView {
                                identity: identity.digest@,
                                projection: projection@,
                            },
                        ));
                    },
                }
            },
            None => {
                assert(false);
            },
        }
        at = at + 1;
    }
    Ok(projected)
}

/// Fields that stand for projected packages.
pub open spec fn projected_fields(packages: Seq<ProjectedView>) -> Seq<Field>
    decreases packages.len(),
{
    if packages.len() == 0 {
        seq![]
    } else {
        projected_fields(packages.drop_last()) + seq![
            field("package-identity"@, packages.last().identity),
            field("package-projection"@, packages.last().projection),
        ]
    }
}

/// Fields that stand for one setting of the workspace manifest.
pub open spec fn workspace_setting_fields(
    label: Seq<char>,
    value: Option<DocumentView>,
) -> Seq<Field> {
    seq![
        field("workspace-setting-name"@, encode_utf8(label)),
        match value {
            Some(found) => field("workspace-setting-value"@, encode_utf8(found.rendered)),
            None => field("workspace-setting-missing"@, seq![]),
        },
    ]
}

/// A setting below the workspace table of a manifest.
pub open spec fn workspace_member(manifest: DocumentView, name: Seq<char>) -> Option<DocumentView> {
    match member_of(manifest, "workspace"@) {
        Some(table) => member_of(table, name),
        None => None,
    }
}

/// Everything of a workspace that the selected packages can see.
pub open spec fn workspace_fields(
    projected: Seq<ProjectedView>,
    manifest: DocumentView,
) -> Seq<Field> {
    projected_fields(sorted_by(projected, projected_before())) + workspace_setting_fields(
        "cargo-features"@,
        member_of(manifest, "cargo-features"@),
    ) + workspace_setting_fields("profile"@, member_of(manifest, "profile"@))
        + workspace_setting_fields(
        "workspace-resolver"@,
        workspace_member(manifest, "resolver"@),
    ) + workspace_setting_fields("workspace-lints"@, workspace_member(manifest, "lints"@))
}

fn hash_toml_setting(hasher: &mut InputHasher, label: &str, value: Option<&Document>)
    requires
        old(hasher).wf(),
        !old(hasher).in_file(),
    ensures
        final(hasher).wf(),
        !final(hasher).in_file(),
        final(hasher)@ == old(hasher)@ + workspace_setting_fields(
            label@,
            match value {
                Some(found) => Some(found@),
                None => None,
            },
        ),
{
    hasher.field("workspace-setting-name", label.as_bytes());
    match value {
        Some(found) => {
            hasher.field("workspace-setting-value", found.rendered.as_str().as_bytes());
        },
        None => {
            let empty: Vec<u8> = Vec::new();
            assert(empty@ =~= seq![]);
            hasher.field("workspace-setting-missing", empty.as_slice());
        },
    }
    assert(hasher@ =~= old(hasher)@ + workspace_setting_fields(
        label@,
        match value {
            Some(found) => Some(found@),
            None => None,
        },
    ));
}

/// The digest of everything of a workspace that the selected packages can see.
pub fn workspace_projection(projected: Vec<ProjectedPackage>, manifest: &Document) -> (digest: InputDigest)
    ensures
        digest@ == digest_of(
            "wasm-semantic-workspace-projection-v1"@,
            workspace_fields(projected_views(projected@), manifest@),
        ),
{
    let mut projected = projected;
    let ghost given = projected@;
    sort_ranked(&mut projected);
    let ghost ordered = projected_views(projected@);
    proof {
        lemma_ranked_view(given, |package: ProjectedPackage| package@, projected_before());
    }
    let mut hasher = InputHasher::new("wasm-semantic-workspace-projection-v1");
    let ghost domain = hasher@;
    let mut at: usize = 0;
    assert(ordered.take(0) =~= seq![]);
    assert(domain + projected_fields(ordered.take(0)) =~= domain);
    while at < projected.len()
        invariant
            at <= projected@.len(),
            ordered == projected_views(projected@),
            hasher.wf(),
            !hasher.in_file(),
            hasher@ == domain + projected_fields(ordered.take(at as int)),
        decreases projected.len() - at,
    {
        let package = &projected[at];
        proof {
            assert(ordered.take(at + 1).drop_last() =~= ordered.take(at as int));
            assert(ordered.take(at + 1).last() == package@);
        }
        hasher.field("package-identity", package.identity.as_bytes().as_slice());
        hasher.field("package-projection", package.projection.as_bytes().as_slice());
        assert(hasher@ =~= domain + projected_fields(ordered.take(at + 1)));
        at = at + 1;
    }
    assert(ordered.take(at as int) =~= ordered);
    hash_toml_setting(&mut hasher, "cargo-features", manifest.get("cargo-features"));
    hash_toml_setting(&mut hasher, "profile", manifest.get("profile"));
    let workspace = manifest.get("workspace");
    let resolver = match workspace {
        Some(table) => table.get("resolver"),
        None => None,
    };
    let lints = match workspace {
        Some(table) => table.get("lints"),
        None => None,
    };
    hash_toml_setting(&mut hasher, "workspace-resolver", resolver);
    hash_toml_setting(&mut hasher, "workspace-lints", lints);
    assert(hasher@ =~= domain + workspace_fields(projected_views(given), manifest@));
    hasher.finish()
}

/// The projected packages of a closure, before the workspace manifest is taken in.
///
/// `Ok(None)` when a package of the closure cannot be told apart from the rest
/// of the workspace.
pub open spec fn projected_closure(
    metadata: DocumentView,
    packages: Seq<PackageView>,
    closure: Seq<Seq<char>>,
    workspace_root: Seq<u8>,
    locked: Seq<LockedView>,
) -> Result<Option<Seq<ProjectedView>>, Seq<char>> {
    match closure_identities(closure, packages, workspace_root, locked) {
        Err(message) => Err(message),
        Ok(None) => Ok(None),
        Ok(Some(identities)) => match resolved_nodes(metadata) {
            None => Err("Cargo metadata has no resolved dependency nodes"@),
            Some(nodes) => match node_id_violation(nodes) {
                Some(message) => Err(message),
                None => match projected_packages(
                    identities.len() as int,
                    packages,
                    nodes,
                    identities,
                ) {
                    Err(message) => Err(message),
                    Ok(projected) => Ok(Some(projected)),
                },
            },
        },
    }
}

/// The projected packages of a closure, before the workspace manifest is taken in.
pub fn project_closure(
    metadata: &Document,
    packages: &Vec<MetadataPackage>,
    closure: &Vec<String>,
    workspace_root: &[u8],
    locked: &Vec<LockedPackageIdentity>,
) -> (result: Result<Option<Vec<ProjectedPackage>>, WasmBuildError>)
    ensures
        match (
            result,
            projected_closure(
                metadata@,
                packages_view(packages@),
                texts(closure@),
                workspace_root@,
                locked_views(locked@),
            ),
        ) {
            (Ok(None), Ok(None)) => true,
            (Ok(Some(projected)), Ok(Some(expected))) => projected_views(projected@) == expected,
            (Err(WasmBuildError::InvalidMetadata { message }), Err(expected)) => message@
                == expected,
            _ => false,
        },
{
    let identities = match identify_closure(closure, packages, workspace_root, locked) {
        Err(error) => return Err(error),
        Ok(None) => return Ok(None),
        Ok(Some(identities)) => identities,
    };
    proof {
        lemma_identities_known(
            texts(closure@),
            packages_view(packages@),
            workspace_root@,
            locked_views(locked@),
        );
    }
    let nodes = match find_resolved_nodes(metadata) {
        Some(nodes) => nodes,
        None => return Err(invalid_metadata("Cargo metadata has no resolved dependency nodes")),
    };
    match check_node_ids(nodes) {
        Ok(()) => {},
        Err(error) => return Err(error),
    }
    match project_packages(packages, nodes, &identities) {
        Ok(projected) => Ok(Some(projected)),
        Err(error) => Err(error),
    }
}

/// The digest of what of a workspace can change the selected build.
///
/// `Ok(None)` when a package of the closure cannot be told apart from the rest
/// of the workspace; the complete input set then has to identify the build.
pub fn semantic_workspace_projection(
    metadata: &Document,
    packages: &Vec<MetadataPackage>,
    closure: &Vec<String>,
    workspace_root: &[u8],
    lockfile: FileText,
    manifest: Result<String, String>,
) -> (result: Result<Option<InputDigest>, WasmBuildError>)
    ensures
        lockfile is Text && toml_of(lockfile->Text_0@) is Ok && locked_of(
            toml_of(lockfile->Text_0@)->Ok_0,
        ) is Ok ==> ({
            let locked = locked_of(toml_of(lockfile->Text_0@)->Ok_0)->Ok_0;
            let projected = projected_closure(
                metadata@,
                packages_view(packages@),
                texts(closure@),
                workspace_root@,
                locked,
            );
            projection_outcome(projected, workspace_root@, manifest, result)
        }),
        lockfile is Missing ==> projection_outcome(
            projected_closure(
                metadata@,
                packages_view(packages@),
                texts(closure@),
                workspace_root@,
                seq![],
            ),
            workspace_root@,
            manifest,
            result,
        ),
        lockfile matches FileText::Failed { message: cause } ==> {
            &&& result matches Err(WasmBuildError::Io { operation, path, source })
            &&& operation@ == "read Cargo lockfile for semantic projection"@
            &&& path@ == joined(workspace_root@, encode_utf8("Cargo.lock"@))
            &&& source@ == cause@
        },
        lockfile matches FileText::Text(contents) ==> (toml_of(contents@) matches Err(cause) ==> {
            &&& result matches Err(WasmBuildError::InvalidMetadata { message })
            &&& message@ == "Cargo lockfile could not be projected as TOML: "@ + cause
        }),
        lockfile matches FileText::Text(contents) ==> (toml_of(contents@) matches Ok(lock) ==> (
        locked_of(lock) matches Err(cause) ==> {
            &&& result matches Err(WasmBuildError::InvalidMetadata { message })
            &&& message@ == cause
        })),
{
    let locked = match locked_package_identities(workspace_root, lockfile) {
        Ok(locked) => locked,
        Err(error) => return Err(error),
    };
    let projected = match project_closure(metadata, packages, closure, workspace_root, &locked) {
        Err(error) => return Err(error),
        Ok(None) => return Ok(None),
        Ok(Some(projected)) => projected,
    };
    let contents = match manifest {
        Ok(contents) => contents,
        Err(message) => {
            return Err(
                WasmBuildError::Io {
                    operation: "read workspace manifest for semantic projection".to_owned(),
                    path: join(workspace_root, "Cargo.toml".as_bytes()),
                    source: message,
                },
            )
        },
    };
    match read_toml(contents.as_str()) {
        Err(cause) => {
            let mut message = "workspace manifest could not be projected as TOML: ".to_owned();
            message.append(cause.as_str());
            Err(WasmBuildError::InvalidMetadata { message })
        },
        Ok(document) => Ok(Some(workspace_projection(projected, &document))),
    }
}

/// What a projection comes to once the packages have been projected.
pub open spec fn projection_outcome(
    projected: Result<Option<Seq<ProjectedView>>, Seq<char>>,
    workspace_root: Seq<u8>,
    manifest: Result<String, String>,
    result: Result<Option<InputDigest>, WasmBuildError>,
) -> bool {
    match projected {
        Err(expected) => {
            &&& result matches Err(WasmBuildError::InvalidMetadata { message })
            &&& message@ == expected
        },
        Ok(None) => result == Ok::<Option<InputDigest>, WasmBuildError>(None),
        Ok(Some(packages)) => match manifest {
            Err(cause) => {
                &&& result matches Err(WasmBuildError::Io { operation, path, source })
                &&& operation@ == "read workspace manifest for semantic projection"@
                &&& path@ == joined(workspace_root, encode_utf8("Cargo.toml"@))
                &&& source@ == cause@
            },
            Ok(contents) => match toml_of(contents@) {
                Err(cause) => {
                    &&& result matches Err(WasmBuildError::InvalidMetadata { message })
                    &&& message@ == "workspace manifest could not be projected as TOML: "@ + cause
                },
                Ok(document) => {
                    &&& result matches Ok(Some(digest))
                    &&& digest@ == digest_of(
                        "wasm-semantic-workspace-projection-v1"@,
                        workspace_fields(packages, document),
                    )
                },
            },
        },
    }
}

} // verus!

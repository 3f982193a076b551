//! Discovery of the Cargo configuration files that affect a build.

use vstd::prelude::*;
use vstd::string::*;
use vstd::utf8::encode_utf8;
use super::error::WasmBuildError;
use super::spec::{WasmBuildSpec, WasmBuildSpecView};
use crate::digest::{digest_bytes, digest_of, field, hex};
use crate::document::{
    documents_view, items_of, member_of, read_toml, text_of_value, toml_of, Document, DocumentView,
    Shape, ShapeView,
};
use crate::paths::{
    is_absolute, is_absolute_path, join, joined, parent, parent_path, paths_equal, same_path,
    strip_prefix, stripped,
};
use crate::settings::{
    copy_bytes, lookup, optional_bytes, setting_of, settings_view, Setting, SettingView,
};
use crate::text::bytes_of;
use crate::tree::{byte_strings, is_visited, labeled_views, LabeledPath, LabeledView};

verus! {

/// The configuration file that Cargo reads in a directory: the one without an extension, else the
/// one with it.
pub fn effective_cargo_config(
    directory: &[u8],
    has_extensionless: bool,
    has_toml: bool,
) -> (config: Option<Vec<u8>>)
    ensures
        optional_bytes(config) == if has_extensionless {
            Some(joined(directory@, encode_utf8("config"@)))
        } else if has_toml {
            Some(joined(directory@, encode_utf8("config.toml"@)))
        } else {
            None
        },
{
    if has_extensionless {
        Some(join(directory, "config".as_bytes()))
    } else if has_toml {
        Some(join(directory, "config.toml".as_bytes()))
    } else {
        None
    }
}

/// The value that a child process sees for `name`: an override before the ambient value.
pub open spec fn child_value(
    spec: WasmBuildSpecView,
    ambient: Seq<SettingView>,
    name: Seq<u8>,
) -> Option<Seq<u8>> {
    match setting_of(spec.extra_env, name) {
        Some(Some(value)) => Some(value),
        _ => match setting_of(ambient, name) {
            Some(value) => value,
            None => None,
        },
    }
}

/// The value that a child process sees for `name`.
pub fn command_environment_value(
    spec: &WasmBuildSpec,
    ambient: &Vec<Setting>,
    name: &str,
) -> (value: Option<Vec<u8>>)
    ensures
        optional_bytes(value) == child_value(spec@, settings_view(ambient@), encode_utf8(name@)),
{
    if let Some(setting) = lookup(spec.extra_env(), name.as_bytes()) {
        if let Some(value) = &setting.value {
            return Some(copy_bytes(value.as_slice()));
        }
    }
    match lookup(ambient, name.as_bytes()) {
        Some(setting) => match &setting.value {
            Some(value) => Some(copy_bytes(value.as_slice())),
            None => None,
        },
        None => None,
    }
}

/// `path` as seen from the directory in which Cargo runs.
pub open spec fn from_invocation(invocation_root: Seq<u8>, path: Seq<u8>) -> Seq<u8> {
    if is_absolute_path(path) {
        path
    } else {
        joined(invocation_root, path)
    }
}

/// The Cargo home of a child process: `CARGO_HOME`, else `.cargo` below `HOME`.
pub open spec fn cargo_home_of(
    spec: WasmBuildSpecView,
    ambient: Seq<SettingView>,
    invocation_root: Seq<u8>,
) -> Option<Seq<u8>> {
    match child_value(spec, ambient, encode_utf8("CARGO_HOME"@)) {
        Some(home) => Some(from_invocation(invocation_root, home)),
        None => match child_value(spec, ambient, encode_utf8("HOME"@)) {
            Some(home) => Some(
                joined(from_invocation(invocation_root, home), encode_utf8(".cargo"@)),
            ),
            None => None,
        },
    }
}

fn seen_from(invocation_root: &[u8], path: Vec<u8>) -> (seen: Vec<u8>)
    ensures
        seen@ == from_invocation(invocation_root@, path@),
{
    if is_absolute(path.as_slice()) {
        path
    } else {
        join(invocation_root, path.as_slice())
    }
}

/// The Cargo home of a child process.
pub fn effective_cargo_home(
    spec: &WasmBuildSpec,
    ambient: &Vec<Setting>,
    invocation_root: &[u8],
) -> (home: Option<Vec<u8>>)
    ensures
        optional_bytes(home) == cargo_home_of(spec@, settings_view(ambient@), invocation_root@),
{
    if let Some(home) = command_environment_value(spec, ambient, "CARGO_HOME") {
        return Some(seen_from(invocation_root, home));
    }
    match command_environment_value(spec, ambient, "HOME") {
        Some(home) => {
            let seen = seen_from(invocation_root, home);
            Some(join(seen.as_slice(), ".cargo".as_bytes()))
        },
        None => None,
    }
}

/// The label under which a configuration file is hashed.
///
/// A file of the workspace is named by its place there, any other by a digest
/// of its path.
pub open spec fn configuration_label(config: Seq<u8>, workspace_root: Seq<u8>) -> Seq<u8> {
    match stripped(config, workspace_root) {
        Some(relative) => joined(encode_utf8("cargo-config/workspace"@), relative),
        None => joined(
            encode_utf8("cargo-config/external"@),
            encode_utf8(
                hex(digest_of("cargo-config-location-v1"@, seq![field("content"@, config)])),
            ),
        ),
    }
}

/// The label under which a configuration file is hashed.
pub fn cargo_configuration_label(config: &[u8], workspace_root: &[u8]) -> (label: Vec<u8>)
    ensures
        label@ == configuration_label(config@, workspace_root@),
{
    match strip_prefix(config, workspace_root) {
        Some(relative) => join("cargo-config/workspace".as_bytes(), relative.as_slice()),
        None => {
            let location = digest_bytes("cargo-config-location-v1", config);
            join("cargo-config/external".as_bytes(), location.to_hex().as_str().as_bytes())
        },
    }
}

/// A configuration file that another one names.
#[derive(Debug)]
pub struct ConfigReference {
    /// Path as it is written, or resolved against the naming file.
    pub path: Vec<u8>,
    /// Whether the file may be missing.
    pub optional: bool,
}

/// What a configuration reference says.
pub struct ReferenceView {
    /// Path as it is written, or resolved against the naming file.
    pub path: Seq<u8>,
    /// Whether the file may be missing.
    pub optional: bool,
}

impl View for ConfigReference {
    type V = ReferenceView;

    open spec fn view(&self) -> ReferenceView {
        ReferenceView { path: self.path@, optional: self.optional }
    }
}

/// Views of a list of configuration references.
pub open spec fn references_view(references: Seq<ConfigReference>) -> Seq<ReferenceView> {
    references.map_values(|reference: ConfigReference| reference@)
}

/// The configuration file that one value names, or what is wrong with it.
pub open spec fn reference_of(value: DocumentView) -> Result<ReferenceView, Seq<char>> {
    match value.shape {
        ShapeView::Text(path) => Ok(ReferenceView { path: encode_utf8(path), optional: false }),
        ShapeView::Record(_) => match member_of(value, "path"@) {
            Some(path) => match text_of_value(path) {
                Some(text) => match member_of(value, "optional"@) {
                    None => Ok(ReferenceView { path: encode_utf8(text), optional: false }),
                    Some(flag) => match flag.shape {
                        ShapeView::Flag(optional) => Ok(
                            ReferenceView { path: encode_utf8(text), optional },
                        ),
                        _ => Err("Cargo configuration include `optional` must be a boolean"@),
                    },
                },
                None => Err("Cargo configuration include table requires a string `path`"@),
            },
            None => Err("Cargo configuration include table requires a string `path`"@),
        },
        _ => Err("Cargo configuration `include` must contain paths or include tables"@),
    }
}

/// The configuration files that a list of values names, or what is wrong with the first bad one.
pub open spec fn references_of(values: Seq<DocumentView>) -> Result<Seq<ReferenceView>, Seq<char>>
    decreases values.len(),
{
    if values.len() == 0 {
        Ok(seq![])
    } else {
        match references_of(values.drop_last()) {
            Err(message) => Err(message),
            Ok(references) => match reference_of(values.last()) {
                Err(message) => Err(message),
                Ok(reference) => Ok(references.push(reference)),
            },
        }
    }
}

/// The configuration files that an entry names: a list of values, or one value alone.
pub open spec fn references_in(entry: DocumentView) -> Result<Seq<ReferenceView>, Seq<char>> {
    match items_of(entry) {
        Some(values) => references_of(values),
        None => references_of(seq![entry]),
    }
}

fn configuration_error(config: &[u8], message: &str) -> (error: WasmBuildError)
    ensures
        error matches WasmBuildError::InvalidCargoConfiguration { path, message: found } && path@
            == config@ && found@ == message@,
{
    WasmBuildError::InvalidCargoConfiguration {
        path: copy_bytes(config),
        message: message.to_owned(),
    }
}

fn read_reference(value: &Document, config: &[u8]) -> (result: Result<
    ConfigReference,
    WasmBuildError,
>)
    ensures
        match (result, reference_of(value@)) {
            (Ok(reference), Ok(expected)) => reference@ == expected,
            (
                Err(WasmBuildError::InvalidCargoConfiguration { path, message }),
                Err(expected),
            ) => path@ == config@ && message@ == expected,
            _ => false,
        },
{
    if let Some(path) = value.as_text() {
        return Ok(ConfigReference { path: bytes_of(path.as_str()), optional: false });
    }
    if !value.is_record() {
        return Err(
            configuration_error(
                config,
                "Cargo configuration `include` must contain paths or include tables",
            ),
        );
    }
    let path = match value.get_text("path") {
        Some(path) => bytes_of(path.as_str()),
        None => {
            return Err(
                configuration_error(
                    config,
                    "Cargo configuration include table requires a string `path`",
                ),
            )
        },
    };
    match value.get("optional") {
        None => Ok(ConfigReference { path, optional: false }),
        Some(flag) => match &flag.shape {
            Shape::Flag(optional) => Ok(ConfigReference { path, optional: *optional }),
            _ => Err(
                configuration_error(
                    config,
                    "Cargo configuration include `optional` must be a boolean",
                ),
            ),
        },
    }
}

proof fn lemma_references_error(values: Seq<DocumentView>, upto: int)
    requires
        0 <= upto <= values.len(),
        references_of(values.take(upto)) is Err,
    ensures
        references_of(values) == references_of(values.take(upto)),
    decreases values.len() - upto,
{
    if upto < values.len() {
        assert(values.take(upto + 1).drop_last() =~= values.take(upto));
        lemma_references_error(values, upto + 1);
    } else {
        assert(values.take(upto) =~= values);
    }
}

/// The configuration files that an entry of the file `config` names.
pub fn cargo_configuration_references(entry: &Document, config: &[u8]) -> (result: Result<
    Vec<ConfigReference>,
    WasmBuildError,
>)
    ensures
        match (result, references_in(entry@)) {
            (Ok(references), Ok(expected)) => references_view(references@) == expected,
            (
                Err(WasmBuildError::InvalidCargoConfiguration { path, message }),
                Err(expected),
            ) => path@ == config@ && message@ == expected,
            _ => false,
        },
{
    let mut references: Vec<ConfigReference> = Vec::new();
    assert(references_view(references@) =~= seq![]);
    match entry.as_items() {
        None => {
            proof {
                assert(seq![entry@].drop_last() =~= seq![]);
                assert(seq![entry@].last() == entry@);
                assert(references_of(seq![]) == Ok::<Seq<ReferenceView>, Seq<char>>(seq![]));
            }
            match read_reference(entry, config) {
                Err(error) => Err(error),
                Ok(reference) => {
                    references.push(reference);
                    assert(references_view(references@) =~= seq![].push(reference@));
                    Ok(references)
                },
            }
        },
        Some(values) => {
            let ghost all = documents_view(values@);
            let mut at: usize = 0;
            assert(all.take(0) =~= seq![]);
            while at < values.len()
                invariant
                    at <= values@.len(),
                    all == documents_view(values@),
                    Some(all) == items_of(entry@),
                    references_of(all.take(at as int)) == Ok::<Seq<ReferenceView>, Seq<char>>(
                        references_view(references@),
                    ),
                decreases values.len() - at,
            {
                proof {
                    assert(all.take(at + 1).drop_last() =~= all.take(at as int));
                    assert(all.take(at + 1).last() == values@[at as int]@);
                }
                match read_reference(&values[at], config) {
                    Err(error) => {
                        proof {
                            lemma_references_error(all, at + 1);
                        }
                        return Err(error);
                    },
                    Ok(reference) => {
                        let ghost before = references_view(references@);
                        references.push(reference);
                        assert(references_view(references@) =~= before.push(reference@));
                    },
                }
                at = at + 1;
            }
            assert(all.take(at as int) =~= all);
            Ok(references)
        },
    }
}

/// Directories in which Cargo looks for a configuration: `.cargo` below `root` and below each of
/// its ancestors, innermost first.
pub open spec fn configuration_directories(root: Seq<u8>, fuel: nat) -> Seq<Seq<u8>>
    decreases fuel,
{
    if fuel == 0 {
        seq![]
    } else {
        let here = seq![joined(root, encode_utf8(".cargo"@))];
        match parent_path(root) {
            Some(above) => here + configuration_directories(above, (fuel - 1) as nat),
            None => here,
        }
    }
}

proof fn lemma_parent_shorter(path: Seq<u8>)
    ensures
        parent_path(path) matches Some(above) ==> above.len() < path.len(),
{
    crate::paths::lemma_spans(path);
    let all = crate::paths::spans(path);
    if all.len() > 1 {
        assert(all[all.len() - 2].1 <= all[all.len() - 1].0);
        assert(all[all.len() - 1].0 < all[all.len() - 1].1);
    } else if all.len() == 1 {
        assert(all[0].0 < all[0].1);
    }
}

/// Directories in which Cargo looks for a configuration when it runs in `root`.
pub fn cargo_configuration_directories(root: &[u8]) -> (directories: Vec<Vec<u8>>)
    ensures
        byte_strings(directories@) == configuration_directories(root@, (root@.len() + 1) as nat),
{
    let ghost all = configuration_directories(root@, (root@.len() + 1) as nat);
    let mut directories: Vec<Vec<u8>> = Vec::new();
    let mut current: Option<Vec<u8>> = Some(copy_bytes(root));
    let ghost mut fuel: nat = (root@.len() + 1) as nat;
    assert(byte_strings(directories@) + all =~= all);
    while current.is_some()
        invariant
            current matches Some(path) ==> fuel > path@.len() && byte_strings(directories@)
                + configuration_directories(path@, fuel) == all,
            current is None ==> byte_strings(directories@) == all,
        decreases (if current is Some {
            fuel + 1
        } else {
            0
        }),
    {
        if let Some(path) = current {
            let ghost before = byte_strings(directories@);
            let here = join(path.as_slice(), ".cargo".as_bytes());
            directories.push(here);
            proof {
                lemma_parent_shorter(path@);
                assert(byte_strings(directories@) =~= before.push(here@));
            }
            current = parent(path.as_slice());
            proof {
                if current is Some {
                    assert(byte_strings(directories@) + configuration_directories(
                        current->0@,
                        (fuel - 1) as nat,
                    ) =~= before + configuration_directories(path@, fuel));
                    fuel = (fuel - 1) as nat;
                } else {
                    assert(byte_strings(directories@) =~= before + configuration_directories(
                        path@,
                        fuel,
                    ));
                }
            }
        }
    }
    directories
}

/// What resolving a configuration path gave.
#[derive(Debug)]
pub enum ConfigResolution {
    /// The file exists under this canonical path.
    Found {
        /// Canonical path of the file.
        canonical: Vec<u8>,
    },
    /// The file does not exist.
    Missing {
        /// Rendered cause.
        message: String,
    },
    /// The path could not be resolved.
    Failed {
        /// Rendered cause.
        message: String,
    },
}

/// A walk over configuration files and the files they name.
///
/// The caller resolves and reads the files; the walk decides which ones count,
/// in which order, and under which labels.
pub struct CargoConfigWalk {
    workspace_root: Vec<u8>,
    visited: Vec<Vec<u8>>,
    pending: Vec<ConfigReference>,
    current: Option<Vec<u8>>,
    inputs: Vec<LabeledPath>,
}

/// References resolved against the directory of the naming file.
pub open spec fn resolved_references(
    directory: Seq<u8>,
    references: Seq<ReferenceView>,
) -> Seq<ReferenceView> {
    references.map_values(
        |reference: ReferenceView| ReferenceView {
            path: from_invocation(directory, reference.path),
            optional: reference.optional,
        },
    )
}

impl CargoConfigWalk {
    /// Files already counted, by canonical path.
    pub closed spec fn visited(&self) -> Seq<Seq<u8>> {
        byte_strings(self.visited@)
    }

    /// Files still to be resolved; the last one comes next.
    pub closed spec fn pending(&self) -> Seq<ReferenceView> {
        references_view(self.pending@)
    }

    /// Canonical path of the file whose contents are awaited.
    pub closed spec fn current(&self) -> Option<Seq<u8>> {
        optional_bytes(self.current)
    }

    /// Inputs found so far, in order.
    pub closed spec fn inputs(&self) -> Seq<LabeledView> {
        labeled_views(self.inputs@)
    }

    /// Root against which labels are written.
    pub closed spec fn workspace_root(&self) -> Seq<u8> {
        self.workspace_root@
    }

    /// Start a walk at the given configuration files, in order.
    pub fn new(workspace_root: &[u8], roots: &Vec<Vec<u8>>) -> (walk: Self)
        ensures
            walk.workspace_root() == workspace_root@,
            walk.visited() == Seq::<Seq<u8>>::empty(),
            walk.current() is None,
            walk.inputs() == Seq::<LabeledView>::empty(),
            walk.pending() == byte_strings(roots@).map_values(
                |path: Seq<u8>| ReferenceView { path, optional: false },
            ).reverse(),
    {
        let ghost all = byte_strings(roots@).map_values(
            |path: Seq<u8>| ReferenceView { path, optional: false },
        );
        let mut pending: Vec<ConfigReference> = Vec::new();
        let mut at: usize = roots.len();
        assert(references_view(pending@) =~= all.skip(at as int).reverse());
        while at > 0
            invariant
                at <= roots@.len(),
                all == byte_strings(roots@).map_values(
                    |path: Seq<u8>| ReferenceView { path, optional: false },
                ),
                references_view(pending@) == all.skip(at as int).reverse(),
            decreases at,
        {
            let ghost before = references_view(pending@);
            pending.push(
                ConfigReference { path: copy_bytes(roots[at - 1].as_slice()), optional: false },
            );
            proof {
                assert(all.skip(at - 1) =~= seq![all[at - 1]] + all.skip(at as int));
                assert(references_view(pending@) =~= before.push(all[at - 1]));
                assert(references_view(pending@) =~= all.skip(at - 1).reverse());
            }
            at = at - 1;
        }
        assert(all.skip(0) =~= all);
        let visited: Vec<Vec<u8>> = Vec::new();
        let inputs: Vec<LabeledPath> = Vec::new();
        assert(byte_strings(visited@) =~= Seq::<Seq<u8>>::empty());
        assert(labeled_views(inputs@) =~= Seq::<LabeledView>::empty());
        CargoConfigWalk {
            workspace_root: copy_bytes(workspace_root),
            visited,
            pending,
            current: None,
            inputs,
        }
    }

    /// The file to resolve next, or `None` when the walk is complete.
    pub fn next(&self) -> (reference: Option<&ConfigReference>)
        ensures
            reference is None == (self.pending().len() == 0),
            reference matches Some(found) ==> found@ == self.pending().last(),
    {
        if self.pending.len() == 0 {
            None
        } else {
            Some(&self.pending[self.pending.len() - 1])
        }
    }

    /// Take in what resolving the next file gave; says whether its contents have to be read.
    ///
    /// A missing optional file and a file that was counted before are passed over.
    pub fn resolved(&mut self, resolution: ConfigResolution) -> (result: Result<bool, WasmBuildError>)
        requires
            old(self).pending().len() > 0,
            old(self).current() is None,
        ensures
            final(self).workspace_root() == old(self).workspace_root(),
            final(self).inputs() == old(self).inputs(),
            final(self).pending() == old(self).pending().drop_last(),
            ({
                let reference = old(self).pending().last();
                match resolution {
                    ConfigResolution::Found { canonical } => if is_visited(
                        canonical@,
                        old(self).visited(),
                    ) {
                        &&& result == Ok::<bool, WasmBuildError>(false)
                        &&& final(self).visited() == old(self).visited()
                        &&& final(self).current() is None
                    } else {
                        &&& result == Ok::<bool, WasmBuildError>(true)
                        &&& final(self).visited() == old(self).visited().push(canonical@)
                        &&& final(self).current() == Some(canonical@)
                    },
                    ConfigResolution::Missing { message } => {
                        &&& final(self).visited() == old(self).visited()
                        &&& final(self).current() is None
                        &&& if reference.optional {
                            result == Ok::<bool, WasmBuildError>(false)
                        } else {
                            unresolved(result, reference.path, message@)
                        }
                    },
                    ConfigResolution::Failed { message } => {
                        &&& final(self).visited() == old(self).visited()
                        &&& final(self).current() is None
                        &&& unresolved(result, reference.path, message@)
                    },
                }
            }),
    {
        let ghost before = self.pending@;
        assert(references_view(before).last() == before.last()@);
        let reference = self.pending.pop();
        assert(references_view(self.pending@) =~= references_view(before).drop_last());
        match reference {
            None => Ok(false),
            Some(reference) => match resolution {
                ConfigResolution::Found { canonical } => {
                    let mut at: usize = 0;
                    while at < self.visited.len()
                        invariant
                            at <= self.visited@.len(),
                            self.visited == old(self).visited,
                            self.workspace_root == old(self).workspace_root,
                            self.inputs == old(self).inputs,
                            self.current == old(self).current,
                            references_view(self.pending@) == references_view(before).drop_last(),
                            references_view(before) == old(self).pending(),
                            old(self).current() is None,
                            resolution == (ConfigResolution::Found { canonical }),
                            forall|i: int|
                                0 <= i < at ==> !same_path(
                                    canonical@,
                                    #[trigger] byte_strings(self.visited@)[i],
                                ),
                        decreases self.visited.len() - at,
                    {
                        if paths_equal(canonical.as_slice(), self.visited[at].as_slice()) {
                            assert(same_path(
                                canonical@,
                                byte_strings(self.visited@)[at as int],
                            ));
                            return Ok(false);
                        }
                        at = at + 1;
                    }
                    assert(!is_visited(canonical@, byte_strings(self.visited@)));
                    self.visited.push(copy_bytes(canonical.as_slice()));
                    assert(byte_strings(self.visited@) =~= old(self).visited().push(canonical@));
                    self.current = Some(canonical);
                    Ok(true)
                },
                ConfigResolution::Missing { message } => {
                    if reference.optional {
                        Ok(false)
                    } else {
                        Err(
                            WasmBuildError::Io {
                                operation: "resolve Cargo configuration".to_owned(),
                                path: reference.path,
                                source: message,
                            },
                        )
                    }
                },
                ConfigResolution::Failed { message } => Err(
                    WasmBuildError::Io {
                        operation: "resolve Cargo configuration".to_owned(),
                        path: reference.path,
                        source: message,
                    },
                ),
            },
        }
    }

    /// Take in the contents of the file that was just resolved, or why they could not be read.
    ///
    /// The file counts as an input, and the files that it names come next.
    pub fn contents(&mut self, contents: Result<String, String>) -> (result: Result<
        (),
        WasmBuildError,
    >)
        requires
            old(self).current() is Some,
        ensures
            final(self).workspace_root() == old(self).workspace_root(),
            final(self).visited() == old(self).visited(),
            final(self).current() is None,
            ({
                let canonical = old(self).current()->0;
                match contents {
                    Err(cause) => {
                        &&& result matches Err(WasmBuildError::Io { operation, path, source })
                        &&& operation@ == "read Cargo configuration"@
                        &&& path@ == canonical
                        &&& source@ == cause@
                    },
                    Ok(text) => match toml_of(text@) {
                        Err(cause) => rejected(result, canonical, cause),
                        Ok(document) => match named_references(canonical, document) {
                            Err(message) => rejected(result, canonical, message),
                            Ok(references) => {
                                &&& result is Ok
                                &&& final(self).inputs() == old(self).inputs().push(
                                    LabeledView {
                                        label: configuration_label(
                                            canonical,
                                            old(self).workspace_root(),
                                        ),
                                        path: canonical,
                                    },
                                )
                                &&& final(self).pending() == old(self).pending()
                                    + references.reverse()
                            },
                        },
                    },
                }
            }),
    {
        let canonical = match self.current.take() {
            Some(canonical) => canonical,
            None => return Ok(()),
        };
        let text = match contents {
            Ok(text) => text,
            Err(cause) => {
                return Err(
                    WasmBuildError::Io {
                        operation: "read Cargo configuration".to_owned(),
                        path: canonical,
                        source: cause,
                    },
                )
            },
        };
        let document = match read_toml(text.as_str()) {
            Ok(document) => document,
            Err(message) => {
                return Err(
                    WasmBuildError::InvalidCargoConfiguration { path: canonical, message },
                )
            },
        };
        let label = cargo_configuration_label(canonical.as_slice(), self.workspace_root.as_slice());
        let ghost inputs_before = labeled_views(self.inputs@);
        self.inputs.push(LabeledPath { label, path: copy_bytes(canonical.as_slice()) });
        assert(labeled_views(self.inputs@) =~= inputs_before.push(
            LabeledView { label: label@, path: canonical@ },
        ));
        let entry = match document.get("include") {
            Some(entry) => entry,
            None => {
                assert(self.pending() =~= old(self).pending() + Seq::<
                    ReferenceView,
                >::empty().reverse());
                return Ok(());
            },
        };
        let directory = match parent(canonical.as_slice()) {
            Some(directory) => directory,
            None => {
                return Err(
                    WasmBuildError::InvalidCargoConfiguration {
                        path: canonical,
                        message: "configuration path has no parent directory".to_owned(),
                    },
                )
            },
        };
        let mut references = match cargo_configuration_references(entry, canonical.as_slice()) {
            Ok(references) => references,
            Err(error) => return Err(error),
        };
        let ghost given = references_view(references@);
        let ghost all = resolved_references(directory@, given);
        let ghost start = references_view(self.pending@);
        assert(all.skip(all.len() as int).reverse() =~= seq![]);
        assert(start + all.skip(all.len() as int).reverse() =~= start);
        while references.len() > 0
            invariant
                references@.len() <= given.len(),
                references_view(references@) == given.take(references@.len() as int),
                all == resolved_references(directory@, given),
                self.workspace_root == old(self).workspace_root,
                self.visited == old(self).visited,
                self.current is None,
                labeled_views(self.inputs@) == inputs_before.push(
                    LabeledView { label: label@, path: canonical@ },
                ),
                references_view(self.pending@) == start + all.skip(
                    references@.len() as int,
                ).reverse(),
            decreases references.len(),
        {
            let ghost left = references@.len() - 1;
            let ghost before = references_view(self.pending@);
            let ghost remaining = references@;
            if let Some(ConfigReference { path, optional }) = references.pop() {
                let path = seen_from(directory.as_slice(), path);
                self.pending.push(ConfigReference { path, optional });
                proof {
                    assert(references_view(remaining)[left] == given[left]);
                    assert(references_view(references@) =~= given.take(left));
                    assert(self.pending@.last()@ == all[left]);
                    assert(references_view(self.pending@) =~= before.push(all[left]));
                    assert(all.skip(left) =~= seq![all[left]] + all.skip(left + 1));
                    assert(references_view(self.pending@) =~= start + all.skip(left).reverse());
                }
            }
        }
        assert(all.skip(0) =~= all);
        Ok(())
    }

    /// The inputs found by a complete walk.
    pub fn finish(self) -> (inputs: Vec<LabeledPath>)
        requires
            self.pending().len() == 0,
        ensures
            labeled_views(inputs@) == self.inputs(),
    {
        self.inputs
    }
}

/// Whether a result is the failure to resolve a configuration path.
pub open spec fn unresolved(
    result: Result<bool, WasmBuildError>,
    path: Seq<u8>,
    cause: Seq<char>,
) -> bool {
    &&& result matches Err(WasmBuildError::Io { operation, path: found, source })
    &&& operation@ == "resolve Cargo configuration"@
    &&& found@ == path
    &&& source@ == cause
}

/// Whether a result rejects the contents of a configuration file.
pub open spec fn rejected(
    result: Result<(), WasmBuildError>,
    path: Seq<u8>,
    message: Seq<char>,
) -> bool {
    &&& result matches Err(WasmBuildError::InvalidCargoConfiguration { path: found, message: text })
    &&& found@ == path
    &&& text@ == message
}

/// The files that the configuration at `canonical` names, resolved against its directory, or what
/// is wrong with it.
pub open spec fn named_references(
    canonical: Seq<u8>,
    document: DocumentView,
) -> Result<Seq<ReferenceView>, Seq<char>> {
    match member_of(document, "include"@) {
        None => Ok(seq![]),
        Some(entry) => match parent_path(canonical) {
            None => Err("configuration path has no parent directory"@),
            Some(directory) => match references_in(entry) {
                Err(message) => Err(message),
                Ok(references) => Ok(resolved_references(directory, references)),
            },
        },
    }
}

} // verus!

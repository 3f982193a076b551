//! Which descriptions of an artifact set are accepted.

use vstd::prelude::*;
use vstd::string::*;
use vstd::utf8::encode_utf8;
use super::error::{invalid_spec, is_invalid_spec, ArtifactCacheError};
use super::spec::{
    cargo_views, declared_views, identity_views, output_views, ArtifactCacheSpec,
    ArtifactCacheSpecView, CargoBuildInputSet, CargoInputView, DeclaredPath, DeclaredView,
    IdentityView, LabeledIdentity, OutputSpec, OutputView,
};
use crate::paths::{paths_equal, same_path, segment_end, SEPARATOR};
use crate::settings::{settings_view, Setting, SettingView};
use crate::text::text_equal;

verus! {

/// Longest accepted identifier or label, in bytes.
pub const MAX_LABEL_BYTES: usize = 256;

/// Longest accepted output name, in bytes.
pub const MAX_OUTPUT_NAME_BYTES: usize = 128;

/// Things that carry a stable logical label.
pub trait Labeled {
    /// The label.
    spec fn label_text(&self) -> Seq<char>;

    /// The label.
    fn label(&self) -> (label: &str)
        ensures
            label@ == self.label_text(),
    ;
}

impl Labeled for DeclaredPath {
    open spec fn label_text(&self) -> Seq<char> {
        self.label@
    }

    fn label(&self) -> (label: &str) {
        self.label.as_str()
    }
}

impl Labeled for LabeledIdentity {
    open spec fn label_text(&self) -> Seq<char> {
        self.label@
    }

    fn label(&self) -> (label: &str) {
        self.label.as_str()
    }
}

impl Labeled for CargoBuildInputSet {
    open spec fn label_text(&self) -> Seq<char> {
        self.label@
    }

    fn label(&self) -> (label: &str) {
        self.label.as_str()
    }
}

/// The first of two complaints.
pub open spec fn first_of(first: Option<Seq<char>>, second: Option<Seq<char>>) -> Option<Seq<char>> {
    match first {
        Some(_) => first,
        None => second,
    }
}

/// What is wrong with a stable identifier.
pub open spec fn identifier_violation(kind: Seq<char>, value: Seq<char>) -> Option<Seq<char>> {
    if value.len() == 0 {
        Some(kind + " must not be empty"@)
    } else if encode_utf8(value).len() > MAX_LABEL_BYTES {
        Some(kind + " must not exceed 256 bytes"@)
    } else {
        None
    }
}

/// What is wrong with a label.
pub open spec fn label_violation(kind: Seq<char>, value: Seq<char>) -> Option<Seq<char>> {
    if value.len() == 0 {
        Some(kind + " label must not be empty"@)
    } else if encode_utf8(value).len() > MAX_LABEL_BYTES {
        Some(kind + " label must not exceed 256 bytes"@)
    } else {
        None
    }
}

/// Whether a byte is an ASCII letter, a digit, a dash, an underscore or a dot.
pub open spec fn is_name_byte(byte: u8) -> bool {
    ||| 48 <= byte <= 57
    ||| 65 <= byte <= 90
    ||| 97 <= byte <= 122
    ||| byte == 45
    ||| byte == 95
    ||| byte == 46
}

/// Whether a byte may occur in a portable logical path.
pub open spec fn is_label_byte(byte: u8) -> bool {
    is_name_byte(byte) || byte == SEPARATOR
}

/// Whether a segment of a path starts at `at`.
pub open spec fn is_segment_start(bytes: Seq<u8>, at: int) -> bool {
    at == 0 || (0 < at <= bytes.len() && bytes[at - 1] == SEPARATOR)
}

/// The segment of a path that starts at `at`.
pub open spec fn segment_at(bytes: Seq<u8>, at: int) -> Seq<u8> {
    bytes.subrange(at, segment_end(bytes, at))
}

/// Whether a segment is neither empty nor a dot component.
pub open spec fn is_plain_segment(segment: Seq<u8>) -> bool {
    segment.len() > 0 && segment != seq![46u8] && segment != seq![46u8, 46u8]
}

/// Whether a label is a relative path of portable names.
pub open spec fn is_portable(label: Seq<char>) -> bool {
    let bytes = encode_utf8(label);
    &&& forall|i: int| 0 <= i < bytes.len() ==> is_label_byte(#[trigger] bytes[i])
    &&& forall|at: int|
        #[trigger] is_segment_start(bytes, at) ==> is_plain_segment(segment_at(bytes, at))
}

/// What is wrong with the label of an input or a tool.
pub open spec fn path_label_violation(kind: Seq<char>, value: Seq<char>) -> Option<Seq<char>> {
    first_of(
        label_violation(kind, value),
        if is_portable(value) {
            None
        } else {
            Some(kind + " label `"@ + value + "` must be a portable relative logical path"@)
        },
    )
}

/// What is wrong with an output name.
pub open spec fn output_name_violation(name: Seq<char>) -> Option<Seq<char>> {
    let bytes = encode_utf8(name);
    if bytes.len() == 0 || bytes.len() > MAX_OUTPUT_NAME_BYTES {
        Some("output names must contain 1 to 128 bytes"@)
    } else if exists|i: int| 0 <= i < bytes.len() && !is_name_byte(#[trigger] bytes[i]) {
        Some(
            "output name `"@ + name
                + "` must use only ASCII letters, digits, dot, dash, or underscore"@,
        )
    } else if name == "."@ || name == ".."@ {
        Some("output names must not be dot path components"@)
    } else {
        None
    }
}

/// Whether the text at `at` stands at an earlier place too.
pub open spec fn repeats(texts: Seq<Seq<char>>, at: int) -> bool {
    exists|i: int| 0 <= i < at && #[trigger] texts[i] == texts[at]
}

/// What is wrong with the label at `at`.
pub open spec fn label_complaint(
    kind: Seq<char>,
    labels: Seq<Seq<char>>,
    portable: bool,
    at: int,
) -> Option<Seq<char>> {
    first_of(
        if portable {
            path_label_violation(kind, labels[at])
        } else {
            label_violation(kind, labels[at])
        },
        if repeats(labels, at) {
            Some("duplicate "@ + kind + " label `"@ + labels[at] + "`"@)
        } else {
            None
        },
    )
}

/// The first complaint about the first `upto` labels.
pub open spec fn labels_violation(
    kind: Seq<char>,
    labels: Seq<Seq<char>>,
    portable: bool,
    upto: int,
) -> Option<Seq<char>>
    decreases upto,
{
    if upto <= 0 {
        None
    } else {
        first_of(
            labels_violation(kind, labels, portable, upto - 1),
            label_complaint(kind, labels, portable, upto - 1),
        )
    }
}

/// Whether an output shares its destination with an earlier one.
pub open spec fn shares_destination(outputs: Seq<OutputView>, at: int) -> bool {
    exists|i: int|
        0 <= i < at && same_path((#[trigger] outputs[i]).destination, outputs[at].destination)
}

/// Whether an output shares its name with an earlier one.
pub open spec fn shares_name(outputs: Seq<OutputView>, at: int) -> bool {
    exists|i: int| 0 <= i < at && (#[trigger] outputs[i]).name == outputs[at].name
}

/// What is wrong with the output at `at`.
pub open spec fn output_complaint(outputs: Seq<OutputView>, at: int) -> Option<Seq<char>> {
    let output = outputs[at];
    first_of(
        output_name_violation(output.name),
        if shares_name(outputs, at) {
            Some("duplicate output name `"@ + output.name + "`"@)
        } else if output.destination.len() == 0 {
            Some("output `"@ + output.name + "` destination must not be empty"@)
        } else if shares_destination(outputs, at) {
            Some("output `"@ + output.name + "` shares a destination with another output"@)
        } else {
            None
        },
    )
}

/// The first complaint about the first `upto` outputs.
pub open spec fn outputs_violation(outputs: Seq<OutputView>, upto: int) -> Option<Seq<char>>
    decreases upto,
{
    if upto <= 0 {
        None
    } else {
        first_of(outputs_violation(outputs, upto - 1), output_complaint(outputs, upto - 1))
    }
}

/// Labels of declared paths.
pub open spec fn declared_labels(paths: Seq<DeclaredView>) -> Seq<Seq<char>> {
    paths.map_values(|path: DeclaredView| path.label)
}

/// Labels of identities.
pub open spec fn identity_labels(identities: Seq<IdentityView>) -> Seq<Seq<char>> {
    identities.map_values(|identity: IdentityView| identity.label)
}

/// Labels of resolved Cargo input sets.
pub open spec fn cargo_labels(inputs: Seq<CargoInputView>) -> Seq<Seq<char>> {
    inputs.map_values(|input: CargoInputView| input.label)
}

/// Whether a setting has no name.
pub open spec fn names_nothing(settings: Seq<SettingView>) -> bool {
    exists|i: int| 0 <= i < settings.len() && (#[trigger] settings[i]).name.len() == 0
}

/// What is wrong with the identifiers and the shape of a description.
pub open spec fn outline_violation(spec: ArtifactCacheSpecView) -> Option<Seq<char>> {
    first_of(
        identifier_violation("namespace"@, spec.namespace),
        first_of(
            identifier_violation("recipe identity"@, spec.recipe_id),
            first_of(
                identifier_violation("coordination scope"@, spec.coordination_scope),
                if spec.cache_root.len() == 0 {
                    Some("cache root must not be empty"@)
                } else if spec.outputs.len() == 0 {
                    Some("at least one artifact output is required"@)
                } else {
                    None
                },
            ),
        ),
    )
}

/// What is wrong with the labels and names of a description.
pub open spec fn contents_violation(spec: ArtifactCacheSpecView) -> Option<Seq<char>> {
    first_of(
        labels_violation("input"@, declared_labels(spec.inputs), true, spec.inputs.len() as int),
        first_of(
            labels_violation("tool"@, declared_labels(spec.tools), true, spec.tools.len() as int),
            first_of(
                labels_violation(
                    "identity"@,
                    identity_labels(spec.identities),
                    false,
                    spec.identities.len() as int,
                ),
                first_of(
                    labels_violation(
                        "Cargo build input"@,
                        cargo_labels(spec.cargo_build_inputs),
                        false,
                        spec.cargo_build_inputs.len() as int,
                    ),
                    first_of(
                        if names_nothing(spec.environment) {
                            Some("environment names must not be empty"@)
                        } else {
                            None
                        },
                        outputs_violation(spec.outputs, spec.outputs.len() as int),
                    ),
                ),
            ),
        ),
    )
}

/// What is wrong with a description, or `None` when it is accepted.
pub open spec fn description_violation(spec: ArtifactCacheSpecView) -> Option<Seq<char>> {
    first_of(outline_violation(spec), contents_violation(spec))
}

/// Whether a check came out as a complaint says.
pub open spec fn reports(result: Result<(), ArtifactCacheError>, complaint: Option<Seq<char>>) -> bool {
    match (result, complaint) {
        (Ok(()), None) => true,
        (Err(error), Some(message)) => is_invalid_spec(error, message),
        _ => false,
    }
}

fn complaint(kind: &str, rule: &str) -> (text: String)
    ensures
        text@ == kind@ + rule@,
{
    let mut text = kind.to_owned();
    text.append(rule);
    text
}

fn joined_text(first: &str, second: &str, third: &str) -> (text: String)
    ensures
        text@ == first@ + second@ + third@,
{
    let mut text = first.to_owned();
    text.append(second);
    text.append(third);
    text
}

/// Check a stable identifier.
pub fn validate_identifier(kind: &str, value: &str) -> (result: Result<(), ArtifactCacheError>)
    ensures
        reports(result, identifier_violation(kind@, value@)),
{
    if value.is_empty() {
        return Err(invalid_spec(complaint(kind, " must not be empty")));
    }
    if value.as_bytes().len() > MAX_LABEL_BYTES {
        return Err(invalid_spec(complaint(kind, " must not exceed 256 bytes")));
    }
    Ok(())
}

/// Check a label.
pub fn validate_label(kind: &str, value: &str) -> (result: Result<(), ArtifactCacheError>)
    ensures
        reports(result, label_violation(kind@, value@)),
{
    if value.is_empty() {
        return Err(invalid_spec(complaint(kind, " label must not be empty")));
    }
    if value.as_bytes().len() > MAX_LABEL_BYTES {
        return Err(invalid_spec(complaint(kind, " label must not exceed 256 bytes")));
    }
    Ok(())
}

fn name_byte(byte: u8) -> (accepted: bool)
    ensures
        accepted == is_name_byte(byte),
{
    (byte >= 48 && byte <= 57) || (byte >= 65 && byte <= 90) || (byte >= 97 && byte <= 122) || byte
        == 45 || byte == 95 || byte == 46
}

fn portable_label(bytes: &[u8]) -> (portable: bool)
    ensures
        portable == {
            &&& forall|i: int| 0 <= i < bytes@.len() ==> is_label_byte(#[trigger] bytes@[i])
            &&& forall|at: int|
                #[trigger] is_segment_start(bytes@, at) ==> is_plain_segment(segment_at(bytes@, at))
        },
{
    let mut at: usize = 0;
    while at < bytes.len()
        invariant
            at <= bytes.len(),
            forall|i: int| 0 <= i < at ==> is_label_byte(#[trigger] bytes@[i]),
        decreases bytes.len() - at,
    {
        if !(name_byte(bytes[at]) || bytes[at] == SEPARATOR) {
            assert(!is_label_byte(bytes@[at as int]));
            return false;
        }
        at = at + 1;
    }
    let mut start: usize = 0;
    loop
        invariant
            start <= bytes.len(),
            is_segment_start(bytes@, start as int),
            forall|i: int| 0 <= i < bytes@.len() ==> is_label_byte(#[trigger] bytes@[i]),
            forall|s: int|
                0 <= s < start && #[trigger] is_segment_start(bytes@, s) ==> is_plain_segment(
                    segment_at(bytes@, s),
                ),
        decreases bytes.len() - start,
    {
        let mut end = start;
        while end < bytes.len() && bytes[end] != SEPARATOR
            invariant
                start <= end <= bytes.len(),
                forall|i: int| start <= i < end ==> #[trigger] bytes@[i] != SEPARATOR,
                segment_end(bytes@, start as int) == segment_end(bytes@, end as int),
            decreases bytes.len() - end,
        {
            end = end + 1;
        }
        let ghost segment = segment_at(bytes@, start as int);
        assert(segment_end(bytes@, end as int) == end);
        assert(segment =~= bytes@.subrange(start as int, end as int));
        let length = end - start;
        proof {
            assert(is_segment_start(bytes@, start as int));
            if length == 1 {
                assert(segment =~= seq![bytes@[start as int]]);
                assert(seq![46u8][0] == 46);
            }
            if length == 2 {
                assert(segment =~= seq![bytes@[start as int], bytes@[start + 1]]);
                assert(seq![46u8, 46u8][0] == 46 && seq![46u8, 46u8][1] == 46);
            }
        }
        if length == 0 || (length == 1 && bytes[start] == 46) || (length == 2 && bytes[start] == 46
            && bytes[start + 1] == 46) {
            assert(!is_plain_segment(segment));
            return false;
        }
        assert(is_plain_segment(segment));
        proof {
            assert forall|s: int|
                0 <= s < end + 1 && #[trigger] is_segment_start(
                    bytes@,
                    s,
                ) implies is_plain_segment(segment_at(bytes@, s)) by {
                if s > start {
                    assert(bytes@[s - 1] != SEPARATOR);
                }
            }
        }
        if end == bytes.len() {
            return true;
        }
        start = end + 1;
    }
}

/// Check the label of an input or a tool.
pub fn validate_path_label(kind: &str, value: &str) -> (result: Result<(), ArtifactCacheError>)
    ensures
        reports(result, path_label_violation(kind@, value@)),
{
    validate_label(kind, value)?;
    let bytes = value.as_bytes();
    if !portable_label(bytes) {
        let mut message = joined_text(kind, " label `", value);
        message.append("` must be a portable relative logical path");
        return Err(invalid_spec(message));
    }
    Ok(())
}

/// Check an output name.
pub fn validate_output_name(name: &str) -> (result: Result<(), ArtifactCacheError>)
    ensures
        reports(result, output_name_violation(name@)),
{
    let bytes = name.as_bytes();
    if bytes.len() == 0 || bytes.len() > MAX_OUTPUT_NAME_BYTES {
        return Err(invalid_spec("output names must contain 1 to 128 bytes".to_owned()));
    }
    let mut at: usize = 0;
    while at < bytes.len()
        invariant
            at <= bytes.len(),
            bytes@ == encode_utf8(name@),
            0 < bytes.len() <= MAX_OUTPUT_NAME_BYTES,
            forall|i: int| 0 <= i < at ==> is_name_byte(#[trigger] bytes@[i]),
        decreases bytes.len() - at,
    {
        if !name_byte(bytes[at]) {
            assert(!is_name_byte(bytes@[at as int]));
            return Err(
                invalid_spec(
                    joined_text(
                        "output name `",
                        name,
                        "` must use only ASCII letters, digits, dot, dash, or underscore",
                    ),
                ),
            );
        }
        at = at + 1;
    }
    if text_equal(name, ".") || text_equal(name, "..") {
        return Err(invalid_spec("output names must not be dot path components".to_owned()));
    }
    Ok(())
}

/// Labels of labeled things.
pub open spec fn labels_of<T: Labeled>(items: Seq<T>) -> Seq<Seq<char>> {
    items.map_values(|item: T| item.label_text())
}

proof fn lemma_labels_complaint(
    kind: Seq<char>,
    labels: Seq<Seq<char>>,
    portable: bool,
    at: int,
    upto: int,
)
    requires
        0 <= at < upto,
        labels_violation(kind, labels, portable, at) is None,
        label_complaint(kind, labels, portable, at) is Some,
    ensures
        labels_violation(kind, labels, portable, upto) == label_complaint(
            kind,
            labels,
            portable,
            at,
        ),
    decreases upto,
{
    if upto > at + 1 {
        lemma_labels_complaint(kind, labels, portable, at, upto - 1);
    }
}

fn check_labels<T: Labeled>(kind: &str, items: &Vec<T>, portable: bool) -> (result: Result<
    (),
    ArtifactCacheError,
>)
    ensures
        reports(
            result,
            labels_violation(kind@, labels_of(items@), portable, items@.len() as int),
        ),
{
    let ghost labels = labels_of(items@);
    let mut at: usize = 0;
    while at < items.len()
        invariant
            at <= items@.len(),
            labels == labels_of(items@),
            labels_violation(kind@, labels, portable, at as int) is None,
        decreases items.len() - at,
    {
        let label = items[at].label();
        assert(label@ == labels[at as int]);
        let checked = if portable {
            validate_path_label(kind, label)
        } else {
            validate_label(kind, label)
        };
        if checked.is_err() {
            proof {
                lemma_labels_complaint(kind@, labels, portable, at as int, items@.len() as int);
            }
            return checked;
        }
        let mut earlier: usize = 0;
        while earlier < at
            invariant
                earlier <= at < items@.len(),
                labels == labels_of(items@),
                label@ == labels[at as int],
                labels_violation(kind@, labels, portable, at as int) is None,
                portable ==> path_label_violation(kind@, label@) is None,
                !portable ==> label_violation(kind@, label@) is None,
                forall|i: int| 0 <= i < earlier ==> #[trigger] labels[i] != labels[at as int],
            decreases at - earlier,
        {
            let other = items[earlier].label();
            assert(other@ == labels[earlier as int]);
            if text_equal(other, label) {
                proof {
                    assert(repeats(labels, at as int));
                    lemma_labels_complaint(
                        kind@,
                        labels,
                        portable,
                        at as int,
                        items@.len() as int,
                    );
                }
                let mut message = joined_text("duplicate ", kind, " label `");
                message.append(label);
                message.append("`");
                return Err(invalid_spec(message));
            }
            earlier = earlier + 1;
        }
        assert(!repeats(labels, at as int));
        at = at + 1;
    }
    Ok(())
}

fn check_environment(settings: &Vec<Setting>) -> (result: Result<(), ArtifactCacheError>)
    ensures
        reports(
            result,
            if names_nothing(settings_view(settings@)) {
                Some("environment names must not be empty"@)
            } else {
                None
            },
        ),
{
    let ghost all = settings_view(settings@);
    let mut at: usize = 0;
    while at < settings.len()
        invariant
            at <= settings@.len(),
            all == settings_view(settings@),
            forall|i: int| 0 <= i < at ==> (#[trigger] all[i]).name.len() != 0,
        decreases settings.len() - at,
    {
        assert(all[at as int].name == settings@[at as int].name@);
        if settings[at].name.len() == 0 {
            assert(names_nothing(all));
            return Err(invalid_spec("environment names must not be empty".to_owned()));
        }
        at = at + 1;
    }
    Ok(())
}

proof fn lemma_outputs_complaint(outputs: Seq<OutputView>, at: int, upto: int)
    requires
        0 <= at < upto,
        outputs_violation(outputs, at) is None,
        output_complaint(outputs, at) is Some,
    ensures
        outputs_violation(outputs, upto) == output_complaint(outputs, at),
    decreases upto,
{
    if upto > at + 1 {
        lemma_outputs_complaint(outputs, at, upto - 1);
    }
}

fn check_output(outputs: &Vec<OutputSpec>, at: usize) -> (result: Result<(), ArtifactCacheError>)
    requires
        at < outputs@.len(),
    ensures
        reports(result, output_complaint(output_views(outputs@), at as int)),
{
    let ghost all = output_views(outputs@);
    let output = &outputs[at];
    assert(all[at as int] == output@);
    let name = output.name.as_str();
    validate_output_name(name)?;
    let mut same_name = false;
    let mut same_destination = false;
    let mut earlier: usize = 0;
    while earlier < at
        invariant
            earlier <= at < outputs@.len(),
            all == output_views(outputs@),
            all[at as int] == output@,
            name@ == output.name@,
            same_name == (exists|i: int|
                0 <= i < earlier && (#[trigger] all[i]).name == all[at as int].name),
            same_destination == (exists|i: int|
                0 <= i < earlier && same_path(
                    (#[trigger] all[i]).destination,
                    all[at as int].destination,
                )),
        decreases at - earlier,
    {
        let other = &outputs[earlier];
        assert(all[earlier as int] == other@);
        if text_equal(other.name.as_str(), name) {
            same_name = true;
        }
        if paths_equal(other.destination.as_slice(), output.destination.as_slice()) {
            same_destination = true;
        }
        earlier = earlier + 1;
    }
    assert(same_name == shares_name(all, at as int));
    assert(same_destination == shares_destination(all, at as int));
    if same_name {
        return Err(invalid_spec(joined_text("duplicate output name `", name, "`")));
    }
    if output.destination.len() == 0 {
        return Err(
            invalid_spec(joined_text("output `", name, "` destination must not be empty")),
        );
    }
    if same_destination {
        return Err(
            invalid_spec(
                joined_text("output `", name, "` shares a destination with another output"),
            ),
        );
    }
    Ok(())
}

fn check_outputs(outputs: &Vec<OutputSpec>) -> (result: Result<(), ArtifactCacheError>)
    ensures
        reports(
            result,
            outputs_violation(output_views(outputs@), outputs@.len() as int),
        ),
{
    let ghost all = output_views(outputs@);
    let mut at: usize = 0;
    while at < outputs.len()
        invariant
            at <= outputs@.len(),
            all == output_views(outputs@),
            outputs_violation(all, at as int) is None,
        decreases outputs.len() - at,
    {
        let checked = check_output(outputs, at);
        if checked.is_err() {
            proof {
                lemma_outputs_complaint(all, at as int, outputs@.len() as int);
            }
            return checked;
        }
        at = at + 1;
    }
    Ok(())
}

proof fn lemma_labels_differ(kind: Seq<char>, labels: Seq<Seq<char>>, portable: bool, upto: int)
    requires
        labels_violation(kind, labels, portable, upto) is None,
    ensures
        forall|i: int, j: int|
            #![trigger labels[i], labels[j]]
            0 <= i < j < upto ==> labels[i] != labels[j],
    decreases upto,
{
    if upto > 0 {
        lemma_labels_differ(kind, labels, portable, upto - 1);
        assert(!repeats(labels, upto - 1));
    }
}

proof fn lemma_outputs_differ(outputs: Seq<OutputView>, upto: int)
    requires
        outputs_violation(outputs, upto) is None,
    ensures
        forall|i: int, j: int|
            #![trigger outputs[i], outputs[j]]
            0 <= i < j < upto ==> outputs[i].name != outputs[j].name && !same_path(
                outputs[i].destination,
                outputs[j].destination,
            ),
    decreases upto,
{
    if upto > 0 {
        lemma_outputs_differ(outputs, upto - 1);
        assert(!shares_name(outputs, upto - 1) && !shares_destination(outputs, upto - 1));
    }
}

/// Whether no two of a list of texts are the same.
pub open spec fn all_differ(texts: Seq<Seq<char>>) -> bool {
    forall|i: int, j: int|
        #![trigger texts[i], texts[j]]
        0 <= i < j < texts.len() ==> texts[i] != texts[j]
}

/// Whether no two outputs share a name or a destination.
pub open spec fn outputs_differ(outputs: Seq<OutputView>) -> bool {
    forall|i: int, j: int|
        #![trigger outputs[i], outputs[j]]
        0 <= i < j < outputs.len() ==> outputs[i].name != outputs[j].name && !same_path(
            outputs[i].destination,
            outputs[j].destination,
        )
}

/// In an accepted description no label, output name or destination occurs twice.
pub proof fn lemma_accepted_names_differ(spec: ArtifactCacheSpecView)
    requires
        description_violation(spec) is None,
    ensures
        all_differ(declared_labels(spec.inputs)),
        all_differ(declared_labels(spec.tools)),
        all_differ(identity_labels(spec.identities)),
        all_differ(cargo_labels(spec.cargo_build_inputs)),
        outputs_differ(spec.outputs),
{
    let (inputs, tools) = (declared_labels(spec.inputs), declared_labels(spec.tools));
    let identities = identity_labels(spec.identities);
    let cargo = cargo_labels(spec.cargo_build_inputs);
    lemma_labels_differ("input"@, inputs, true, inputs.len() as int);
    lemma_labels_differ("tool"@, tools, true, tools.len() as int);
    lemma_labels_differ("identity"@, identities, false, identities.len() as int);
    lemma_labels_differ("Cargo build input"@, cargo, false, cargo.len() as int);
    lemma_outputs_differ(spec.outputs, spec.outputs.len() as int);
}

/// Check that a description can be acquired.
pub fn validate_spec(spec: &ArtifactCacheSpec) -> (result: Result<(), ArtifactCacheError>)
    ensures
        reports(result, description_violation(spec@)),
{
    validate_identifier("namespace", spec.namespace())?;
    validate_identifier("recipe identity", spec.recipe_id())?;
    validate_identifier("coordination scope", spec.coordination_scope())?;
    if spec.cache_root().len() == 0 {
        return Err(invalid_spec("cache root must not be empty".to_owned()));
    }
    let outputs = spec.outputs();
    assert(output_views(outputs@).len() == outputs@.len());
    if outputs.len() == 0 {
        return Err(invalid_spec("at least one artifact output is required".to_owned()));
    }
    assert(outline_violation(spec@) is None);
    let inputs = spec.inputs();
    let tools = spec.tools();
    let identities = spec.identities();
    let cargo_inputs = spec.cargo_build_inputs();
    proof {
        assert(labels_of(inputs@) =~= declared_labels(declared_views(inputs@)));
        assert(labels_of(tools@) =~= declared_labels(declared_views(tools@)));
        assert(labels_of(identities@) =~= identity_labels(identity_views(identities@)));
        assert(labels_of(cargo_inputs@) =~= cargo_labels(cargo_views(cargo_inputs@)));
    }
    check_labels("input", inputs, true)?;
    check_labels("tool", tools, true)?;
    check_labels("identity", identities, false)?;
    check_labels("Cargo build input", cargo_inputs, false)?;
    check_environment(spec.environment())?;
    check_outputs(outputs)
}

/// What is wrong with a request to prune a namespace, if anything.
pub open spec fn prune_violation(cache_root: Seq<u8>, namespace: Seq<char>) -> Option<Seq<char>> {
    match identifier_violation("namespace"@, namespace) {
        Some(message) => Some(message),
        None => if cache_root.len() == 0 {
            Some("cache root must not be empty"@)
        } else {
            None
        },
    }
}

/// Check a request to prune a namespace.
pub fn validate_prune_request(cache_root: &[u8], namespace: &str) -> (result: Result<
    (),
    ArtifactCacheError,
>)
    ensures
        reports(result, prune_violation(cache_root@, namespace@)),
{
    validate_identifier("namespace", namespace)?;
    if cache_root.len() == 0 {
        return Err(invalid_spec("cache root must not be empty".to_owned()));
    }
    Ok(())
}

} // verus!

//! Which descriptions of artifact sets are accepted.

use vstd::prelude::*;
use vstd::string::*;
use vstd::utf8::{
    encode_utf8, has_width_1_encoding, has_width_2_encoding, has_width_3_encoding, is_ascii_chars,
    leading_byte_width_2, leading_byte_width_3, leading_byte_width_4,
};
use super::spec::{
    ArtifactCacheSpecView, CargoInputView, DeclaredView, IdentityView, OutputView,
};
use super::validation::{
    cargo_labels, declared_labels, description_violation, identifier_violation, identity_labels,
    is_portable, is_segment_start, label_complaint, label_violation, labels_violation,
    names_nothing, output_complaint, output_name_violation, outputs_violation,
    path_label_violation, prune_violation, repeats, segment_at, shares_destination, shares_name,
};
use crate::paths::{components, lemma_segment_end, segment_end};

verus! {

/// Whether a character is an ASCII letter or digit, a dash, an underscore or a dot.
pub open spec fn is_name_char(character: char) -> bool {
    ||| 'a' <= character <= 'z'
    ||| 'A' <= character <= 'Z'
    ||| '0' <= character <= '9'
    ||| character == '-'
    ||| character == '_'
    ||| character == '.'
}

proof fn lemma_wide_leads(scalar: u32)
    requires
        !has_width_1_encoding(scalar),
    ensures
        has_width_2_encoding(scalar) ==> leading_byte_width_2(scalar) >= 128,
        has_width_3_encoding(scalar) ==> leading_byte_width_3(scalar) >= 128,
        leading_byte_width_4(scalar) >= 128,
{
    assert(leading_byte_width_2(scalar) >= 128) by (bit_vector);
    assert(leading_byte_width_3(scalar) >= 128) by (bit_vector);
    assert(leading_byte_width_4(scalar) >= 128) by (bit_vector);
}

/// A text whose bytes are all below 128 is ASCII.
pub proof fn lemma_low_bytes_are_ascii(text: Seq<char>)
    requires
        forall|i: int| 0 <= i < encode_utf8(text).len() ==> #[trigger] encode_utf8(text)[i] < 128,
    ensures
        is_ascii_chars(text),
    decreases text.len(),
{
    if text.len() > 0 {
        let rest = text.drop_first();
        let first = vstd::utf8::encode_scalar(text[0] as u32);
        let bytes = encode_utf8(text);
        assert(bytes == first + encode_utf8(rest));
        vstd::utf8::char_is_scalar(text[0]);
        if !has_width_1_encoding(text[0] as u32) {
            lemma_wide_leads(text[0] as u32);
            assert(bytes[0] == first[0]);
            assert(first[0] >= 128);
            assert(bytes[0] < 128);
        }
        assert(has_width_1_encoding(text[0] as u32));
        assert forall|i: int| 0 <= i < encode_utf8(rest).len() implies #[trigger] encode_utf8(
            rest,
        )[i] < 128 by {
            assert(bytes[first.len() + i] == encode_utf8(rest)[i]);
        }
        lemma_low_bytes_are_ascii(rest);
        assert forall|i: int| 0 <= i < text.len() implies '\0' <= #[trigger] text[i]
            <= '\u{7f}' by {
            if i > 0 {
                assert(rest[i - 1] == text[i]);
                assert(rest[i - 1] <= '\u{7f}');
            } else {
                let code = text[0] as u32;
                vstd::utf8::char_u32_cast(text[0], code);
                assert(code <= 0x7f);
                assert(code as char <= '\u{7f}');
                assert(text[0] <= '\u{7f}');
            }
        }
    }
}

/// An output name is accepted exactly when it has one to 128 characters, each an ASCII letter or
/// digit, a dash, an underscore or a dot, and is no dot component.
pub proof fn lemma_accepted_output_names(name: Seq<char>)
    ensures
        output_name_violation(name) is None <==> {
            &&& 1 <= name.len() <= 128
            &&& forall|i: int| 0 <= i < name.len() ==> is_name_char(#[trigger] name[i])
            &&& name != seq!['.']
            &&& name != seq!['.', '.']
        },
{
    let bytes = encode_utf8(name);
    reveal_strlit(".");
    reveal_strlit("..");
    assert("."@ =~= seq!['.']);
    assert(".."@ =~= seq!['.', '.']);
    if output_name_violation(name) is None {
        assert forall|i: int| 0 <= i < bytes.len() implies #[trigger] bytes[i] < 128 by {
        }
        lemma_low_bytes_are_ascii(name);
        vstd::utf8::is_ascii_chars_encode_utf8(name);
        assert forall|i: int| 0 <= i < name.len() implies is_name_char(#[trigger] name[i]) by {
            assert(name[i] as u8 == bytes[i]);
        }
    }
    if 1 <= name.len() <= 128 && (forall|i: int|
        0 <= i < name.len() ==> is_name_char(#[trigger] name[i])) && name != seq!['.'] && name
        != seq!['.', '.'] {
        assert forall|i: int| 0 <= i < name.len() implies '\0' <= #[trigger] name[i]
            <= '\u{7f}' by {
            assert(is_name_char(name[i]));
        }
        vstd::utf8::is_ascii_chars_encode_utf8(name);
        assert forall|i: int| 0 <= i < bytes.len() implies super::validation::is_name_byte(
            #[trigger] bytes[i],
        ) by {
            assert(is_name_char(name[i]));
            assert(name[i] as u8 == bytes[i]);
        }
    }
}

/// Whether `from` and `upto` bound a part of a text between slashes.
pub open spec fn is_part(text: Seq<char>, from: int, upto: int) -> bool {
    &&& 0 <= from <= upto <= text.len()
    &&& from == 0 || text[from - 1] == '/'
    &&& upto == text.len() || text[upto] == '/'
    &&& forall|i: int| from <= i < upto ==> #[trigger] text[i] != '/'
}

/// Whether a label is a relative path of names: of name characters and slashes, with no part
/// between slashes empty or a dot component.
pub open spec fn is_relative_label(label: Seq<char>) -> bool {
    &&& forall|i: int| 0 <= i < label.len() ==> is_name_char(#[trigger] label[i]) || label[i] == '/'
    &&& forall|from: int, upto: int| #[trigger]
        is_part(label, from, upto) ==> {
            &&& from < upto
            &&& label.subrange(from, upto) != seq!['.']
            &&& label.subrange(from, upto) != seq!['.', '.']
        }
}

proof fn lemma_segment_is_part(label: Seq<char>, from: int)
    requires
        is_ascii_chars(label),
        is_segment_start(encode_utf8(label), from),
    ensures
        is_part(label, from, segment_end(encode_utf8(label), from)),
        segment_at(encode_utf8(label), from) == encode_utf8(
            label.subrange(from, segment_end(encode_utf8(label), from)),
        ),
{
    let bytes = encode_utf8(label);
    vstd::utf8::is_ascii_chars_encode_utf8(label);
    lemma_segment_end(bytes, from);
    let upto = segment_end(bytes, from);
    if from > 0 {
        assert(label[from - 1] as u8 == bytes[from - 1]);
    }
    if upto < label.len() {
        assert(label[upto] as u8 == bytes[upto]);
    }
    assert forall|i: int| from <= i < upto implies #[trigger] label[i] != '/' by {
        assert(label[i] as u8 == bytes[i]);
        assert(bytes[i] != 47);
    }
    let part = label.subrange(from, upto);
    assert forall|i: int| 0 <= i < part.len() implies '\0' <= #[trigger] part[i] <= '\u{7f}' by {
        assert(part[i] == label[from + i]);
    }
    vstd::utf8::is_ascii_chars_encode_utf8(part);
    assert(segment_at(bytes, from) =~= encode_utf8(part)) by {
        assert forall|i: int| 0 <= i < part.len() implies bytes.subrange(from, upto)[i]
            == #[trigger] encode_utf8(part)[i] by {
            assert(part[i] as u8 == encode_utf8(part)[i]);
            assert(label[from + i] as u8 == bytes[from + i]);
        }
    }
}

proof fn lemma_dots(part: Seq<char>)
    ensures
        encode_utf8(part) == seq![46u8] <==> part == seq!['.'],
        encode_utf8(part) == seq![46u8, 46u8] <==> part == seq!['.', '.'],
        encode_utf8(part).len() == 0 <==> part.len() == 0,
{
    broadcast use vstd::utf8::encode_utf8_decode_utf8;

    let (one, two) = (seq!['.'], seq!['.', '.']);
    assert(is_ascii_chars(one) && is_ascii_chars(two));
    vstd::utf8::is_ascii_chars_encode_utf8(one);
    vstd::utf8::is_ascii_chars_encode_utf8(two);
    assert(one[0] as u8 == encode_utf8(one)[0]);
    assert(two[0] as u8 == encode_utf8(two)[0]);
    assert(two[1] as u8 == encode_utf8(two)[1]);
    assert(encode_utf8(one) =~= seq![46u8]);
    assert(encode_utf8(two) =~= seq![46u8, 46u8]);
    assert(vstd::utf8::decode_utf8(encode_utf8(part)) == part);
    assert(vstd::utf8::decode_utf8(encode_utf8(one)) == one);
    assert(vstd::utf8::decode_utf8(encode_utf8(two)) == two);
    if encode_utf8(part).len() == 0 {
        let none = Seq::<char>::empty();
        assert(encode_utf8(none) =~= encode_utf8(part));
        assert(vstd::utf8::decode_utf8(encode_utf8(none)) == none);
    }
}

proof fn lemma_portable(label: Seq<char>)
    ensures
        is_portable(label) <==> is_relative_label(label),
{
    let bytes = encode_utf8(label);
    if is_portable(label) {
        assert forall|i: int| 0 <= i < bytes.len() implies #[trigger] bytes[i] < 128 by {
            assert(super::validation::is_label_byte(bytes[i]));
        }
        lemma_low_bytes_are_ascii(label);
        vstd::utf8::is_ascii_chars_encode_utf8(label);
        assert forall|i: int| 0 <= i < label.len() implies is_name_char(#[trigger] label[i])
            || label[i] == '/' by {
            assert(label[i] as u8 == bytes[i]);
            assert(super::validation::is_label_byte(bytes[i]));
        }
        assert forall|from: int, upto: int| #[trigger] is_part(label, from, upto) implies {
            &&& from < upto
            &&& label.subrange(from, upto) != seq!['.']
            &&& label.subrange(from, upto) != seq!['.', '.']
        } by {
            if from > 0 {
                assert(label[from - 1] as u8 == bytes[from - 1]);
            }
            assert(is_segment_start(bytes, from));
            lemma_segment_is_part(label, from);
            let end = segment_end(bytes, from);
            if end < upto {
                assert(label[end] != '/');
            }
            if upto < end {
                assert(label[upto] != '/');
            }
            lemma_dots(label.subrange(from, upto));
            lemma_dots(label.subrange(from, end));
        }
    }
    if is_relative_label(label) {
        assert forall|i: int| 0 <= i < label.len() implies '\0' <= #[trigger] label[i]
            <= '\u{7f}' by {
            assert(is_name_char(label[i]) || label[i] == '/');
        }
        vstd::utf8::is_ascii_chars_encode_utf8(label);
        assert forall|i: int| 0 <= i < bytes.len() implies super::validation::is_label_byte(
            #[trigger] bytes[i],
        ) by {
            assert(is_name_char(label[i]) || label[i] == '/');
            assert(label[i] as u8 == bytes[i]);
        }
        assert forall|at: int| #[trigger]
            is_segment_start(bytes, at) implies super::validation::is_plain_segment(
            segment_at(bytes, at),
        ) by {
            lemma_segment_is_part(label, at);
            let end = segment_end(bytes, at);
            assert(is_part(label, at, end));
            lemma_dots(label.subrange(at, end));
        }
    }
}

/// Whether a text has one to 256 bytes.
pub open spec fn has_label_size(text: Seq<char>) -> bool {
    1 <= encode_utf8(text).len() <= 256
}

proof fn lemma_sized(text: Seq<char>)
    ensures
        text.len() == 0 <==> encode_utf8(text).len() == 0,
{
    lemma_dots(text);
}

/// Identifiers and the labels of identities and Cargo inputs are accepted exactly when they have
/// one to 256 bytes; labels of inputs and tools have to be relative paths of names besides.
pub proof fn lemma_accepted_labels(kind: Seq<char>, value: Seq<char>)
    ensures
        identifier_violation(kind, value) is None <==> has_label_size(value),
        label_violation(kind, value) is None <==> has_label_size(value),
        path_label_violation(kind, value) is None <==> has_label_size(value) && is_relative_label(
            value,
        ),
{
    lemma_sized(value);
    lemma_portable(value);
}

proof fn lemma_accepted_label_lists(
    kind: Seq<char>,
    labels: Seq<Seq<char>>,
    portable: bool,
    upto: int,
)
    requires
        0 <= upto <= labels.len(),
    ensures
        labels_violation(kind, labels, portable, upto) is None <==> {
            &&& forall|i: int| #![trigger labels[i]]
                0 <= i < upto ==> has_label_size(labels[i]) && (portable ==> is_relative_label(
                    labels[i],
                ))
            &&& forall|i: int, j: int| #![trigger labels[i], labels[j]]
                0 <= i < j < upto ==> labels[i] != labels[j]
        },
    decreases upto,
{
    if upto > 0 {
        let at = upto - 1;
        lemma_accepted_label_lists(kind, labels, portable, at);
        lemma_accepted_labels(kind, labels[at]);
        if repeats(labels, at) {
            let i = choose|i: int| 0 <= i < at && #[trigger] labels[i] == labels[at];
            assert(labels[i] == labels[at]);
        }
    }
}

/// Whether an output alone is in order: its name is accepted and its destination is not empty.
pub open spec fn is_good_output(output: OutputView) -> bool {
    &&& 1 <= output.name.len() <= 128
    &&& forall|i: int| 0 <= i < output.name.len() ==> is_name_char(#[trigger] output.name[i])
    &&& output.name != seq!['.']
    &&& output.name != seq!['.', '.']
    &&& output.destination.len() > 0
}

proof fn lemma_accepted_outputs(outputs: Seq<OutputView>, upto: int)
    requires
        0 <= upto <= outputs.len(),
    ensures
        outputs_violation(outputs, upto) is None <==> {
            &&& forall|i: int| #![trigger outputs[i]]
                0 <= i < upto ==> is_good_output(outputs[i])
            &&& forall|i: int, j: int| #![trigger outputs[i], outputs[j]]
                0 <= i < j < upto ==> outputs[i].name != outputs[j].name && components(
                    outputs[i].destination,
                ) != components(outputs[j].destination)
        },
    decreases upto,
{
    if upto > 0 {
        let at = upto - 1;
        lemma_accepted_outputs(outputs, at);
        lemma_accepted_output_names(outputs[at].name);
        if shares_name(outputs, at) {
            let i = choose|i: int| 0 <= i < at && (#[trigger] outputs[i]).name == outputs[at].name;
            assert(outputs[i].name == outputs[at].name);
        }
        if shares_destination(outputs, at) {
            let i = choose|i: int|
                0 <= i < at && crate::paths::same_path(
                    (#[trigger] outputs[i]).destination,
                    outputs[at].destination,
                );
            assert(components(outputs[i].destination) == components(outputs[at].destination));
        }
        if (forall|i: int| #![trigger outputs[i]] 0 <= i < upto ==> is_good_output(outputs[i])) && (
        forall|i: int, j: int| #![trigger outputs[i], outputs[j]]
            0 <= i < j < upto ==> outputs[i].name != outputs[j].name && components(
                outputs[i].destination,
            ) != components(outputs[j].destination)) {
            assert(is_good_output(outputs[at]));
        }
    }
}

/// Whether labels are of a fitting size and differ.
pub open spec fn are_good_labels(labels: Seq<Seq<char>>) -> bool {
    &&& forall|i: int| #![trigger labels[i]] 0 <= i < labels.len() ==> has_label_size(labels[i])
    &&& forall|i: int, j: int| #![trigger labels[i], labels[j]]
        0 <= i < j < labels.len() ==> labels[i] != labels[j]
}

/// Whether labels are relative paths of names.
pub open spec fn are_relative_labels(labels: Seq<Seq<char>>) -> bool {
    forall|i: int| #![trigger labels[i]] 0 <= i < labels.len() ==> is_relative_label(labels[i])
}

/// A description is accepted exactly when its identifiers and labels have a fitting size, nothing
/// occurs twice that has to be told apart, labels of inputs and tools are relative paths of
/// names, environment names are not empty, and every output is in order.
pub proof fn lemma_accepted_descriptions(spec: ArtifactCacheSpecView)
    ensures
        description_violation(spec) is None <==> {
            &&& has_label_size(spec.namespace)
            &&& has_label_size(spec.recipe_id)
            &&& has_label_size(spec.coordination_scope)
            &&& spec.cache_root.len() > 0
            &&& spec.outputs.len() > 0
            &&& are_good_labels(spec.inputs.map_values(|path: DeclaredView| path.label))
            &&& are_relative_labels(spec.inputs.map_values(|path: DeclaredView| path.label))
            &&& are_good_labels(spec.tools.map_values(|path: DeclaredView| path.label))
            &&& are_relative_labels(spec.tools.map_values(|path: DeclaredView| path.label))
            &&& are_good_labels(spec.identities.map_values(|item: IdentityView| item.label))
            &&& are_good_labels(
                spec.cargo_build_inputs.map_values(|input: CargoInputView| input.label),
            )
            &&& forall|i: int|
                0 <= i < spec.environment.len() ==> (#[trigger] spec.environment[i]).name.len() > 0
            &&& forall|i: int| #![trigger spec.outputs[i]]
                0 <= i < spec.outputs.len() ==> is_good_output(spec.outputs[i])
            &&& forall|i: int, j: int| #![trigger spec.outputs[i], spec.outputs[j]]
                0 <= i < j < spec.outputs.len() ==> spec.outputs[i].name != spec.outputs[j].name
                    && components(spec.outputs[i].destination) != components(
                    spec.outputs[j].destination,
                )
        },
{
    lemma_accepted_labels("namespace"@, spec.namespace);
    lemma_accepted_labels("recipe identity"@, spec.recipe_id);
    lemma_accepted_labels("coordination scope"@, spec.coordination_scope);
    let inputs = declared_labels(spec.inputs);
    let tools = declared_labels(spec.tools);
    let identities = identity_labels(spec.identities);
    let cargo = cargo_labels(spec.cargo_build_inputs);
    assert(inputs =~= spec.inputs.map_values(|path: DeclaredView| path.label));
    assert(tools =~= spec.tools.map_values(|path: DeclaredView| path.label));
    assert(identities =~= spec.identities.map_values(|item: IdentityView| item.label));
    assert(cargo =~= spec.cargo_build_inputs.map_values(|input: CargoInputView| input.label));
    lemma_accepted_label_lists("input"@, inputs, true, inputs.len() as int);
    lemma_accepted_label_lists("tool"@, tools, true, tools.len() as int);
    lemma_accepted_label_lists("identity"@, identities, false, identities.len() as int);
    lemma_accepted_label_lists("Cargo build input"@, cargo, false, cargo.len() as int);
    lemma_accepted_outputs(spec.outputs, spec.outputs.len() as int);
    if names_nothing(spec.environment) {
        let i = choose|i: int|
            0 <= i < spec.environment.len() && (#[trigger] spec.environment[i]).name.len() == 0;
        assert(spec.environment[i].name.len() == 0);
    } else {
        assert forall|i: int| 0 <= i < spec.environment.len() implies (
        #[trigger] spec.environment[i]).name.len() > 0 by {
        }
    }
}

/// A namespace is pruned exactly when it has a name of at most 256 bytes and the cache has a root.
pub proof fn lemma_accepted_prune_requests(cache_root: Seq<u8>, namespace: Seq<char>)
    ensures
        prune_violation(cache_root, namespace) is None <==> {
            &&& namespace.len() > 0
            &&& encode_utf8(namespace).len() <= 256
            &&& cache_root.len() > 0
        },
{
}

/// Whether a complaint about the label at this place is the first there is.
pub open spec fn is_first_label_complaint(
    kind: Seq<char>,
    labels: Seq<Seq<char>>,
    portable: bool,
    complaint: Seq<char>,
    at: int,
) -> bool {
    &&& 0 <= at < labels.len()
    &&& label_complaint(kind, labels, portable, at) == Some(complaint)
    &&& forall|i: int|
        0 <= i < at ==> #[trigger] label_complaint(kind, labels, portable, i) is None
}

/// What is complained of is the first label that gives reason to.
pub proof fn lemma_first_bad_label_is_told(
    kind: Seq<char>,
    labels: Seq<Seq<char>>,
    portable: bool,
    upto: int,
)
    requires
        0 <= upto <= labels.len(),
    ensures
        labels_violation(kind, labels, portable, upto) matches Some(complaint) ==> exists|at: int|
            at < upto && #[trigger] is_first_label_complaint(
                kind,
                labels,
                portable,
                complaint,
                at,
            ),
        labels_violation(kind, labels, portable, upto) is None ==> forall|i: int|
            0 <= i < upto ==> #[trigger] label_complaint(kind, labels, portable, i) is None,
    decreases upto,
{
    if upto > 0 {
        lemma_first_bad_label_is_told(kind, labels, portable, upto - 1);
        if labels_violation(kind, labels, portable, upto - 1) is None {
            if label_complaint(kind, labels, portable, upto - 1) is Some {
                assert(is_first_label_complaint(
                    kind,
                    labels,
                    portable,
                    label_complaint(kind, labels, portable, upto - 1)->0,
                    upto - 1,
                ));
            }
        }
    }
}

/// What is said of an output names the output and its fault: a bad name first, then a name that an
/// earlier one has, then the lack of a destination, then a destination that an earlier one has.
pub proof fn lemma_faults_of_outputs(outputs: Seq<OutputView>, at: int)
    requires
        0 <= at < outputs.len(),
    ensures
        ({
            let output = outputs[at];
            let said = output_complaint(outputs, at);
            let named = exists|i: int| 0 <= i < at && (#[trigger] outputs[i]).name == output.name;
            let bad = output_name_violation(output.name);
            &&& bad is Some ==> said == bad
            &&& bad is None && named ==> said == Some(
                "duplicate output name `"@ + output.name + "`"@,
            )
            &&& bad is None && !named && output.destination.len() == 0 ==> said == Some(
                "output `"@ + output.name + "` destination must not be empty"@,
            )
            &&& bad is None && !named && output.destination.len() > 0 && (exists|i: int|
                0 <= i < at && components((#[trigger] outputs[i]).destination) == components(
                    output.destination,
                )) ==> said == Some(
                "output `"@ + output.name + "` shares a destination with another output"@,
            )
        }),
{
}

} // verus!

//! What the content key of an artifact set says, and what it leaves out.

use vstd::prelude::*;
use vstd::string::*;
use vstd::utf8::encode_utf8;
use super::key::{
    combined_input_digest, command_fields, content_key, declared_of, declared_start,
    identity_fields, is_key_of, key_fields, output_fields, row_before, row_fields, rows_fields,
    rows_of, sorted_rows, CargoRowView, ResolvedKey, ARTIFACT_CACHE_FORMAT, CARGO_INPUTS_DOMAIN,
    DECLARED_INPUTS_DOMAIN,
};
use super::spec::{
    identity_before, output_before, validation_token, ArtifactCacheSpecView,
    ArtifactOutputValidation, CargoInputView, IdentityView, OutputView,
};
use super::validation::{
    cargo_labels, description_violation, identity_labels, lemma_accepted_names_differ,
};
use crate::digest::{
    collides, field, fits, frames, lemma_fields_split, lemma_frames_injective, sha256, Field,
};
use crate::order::{
    bytes_less, in_order, lemma_bytes_less_total, lemma_bytes_order,
    lemma_given_order_is_irrelevant, lemma_sorted_is_permutation, lemma_sorted_map,
    lemma_strictly_ordered_unique, no_ties, sorted_by,
};
use crate::places::{
    all_fit, is_walk_over, lemma_same_digest_means_same_trees, lemma_same_trees_hash_alike, lies_at,
    places_alike, Place,
};
use crate::tree::{
    is_whole_walk, labels_of, lemma_walk_keeps_fields, met_of, tree_digest, walked, Visit,
};
use crate::wasm_cache::identity::{
    environment_fields, is_environment_field, lemma_environment_fields_injective,
    lemma_environment_labels,
};

verus! {

/// Whether two outputs have the same name and validation, wherever they are materialized.
pub open spec fn same_output(left: OutputView, right: OutputView) -> bool {
    left.name == right.name && left.validation == right.validation
}

/// Whether two descriptions agree in everything that a content key takes in besides the inputs.
pub open spec fn same_identity(left: ArtifactCacheSpecView, right: ArtifactCacheSpecView) -> bool {
    &&& left.namespace == right.namespace
    &&& left.recipe_id == right.recipe_id
    &&& left.arguments == right.arguments
    &&& left.environment == right.environment
    &&& sorted_by(left.identities, identity_before()) == sorted_by(
        right.identities,
        identity_before(),
    )
    &&& left.outputs.len() == right.outputs.len()
    &&& forall|i: int|
        0 <= i < left.outputs.len() ==> same_output(#[trigger] left.outputs[i], right.outputs[i])
}

spec fn is_command_field() -> spec_fn(Field) -> bool {
    |item: Field| item.label == "argument"@
}

spec fn is_identity_field() -> spec_fn(Field) -> bool {
    |item: Field| item.label == "identity-label"@ || item.label == "identity-value"@
}

spec fn is_output_field() -> spec_fn(Field) -> bool {
    |item: Field| item.label == "output-name"@ || item.label == "output-validation"@
}

proof fn lemma_field_kinds_differ(item: Field)
    ensures
        is_command_field()(item) ==> !is_environment_field("environment-name"@)(item)
            && !is_identity_field()(item) && !is_output_field()(item),
        is_environment_field("environment-name"@)(item) ==> !is_identity_field()(item)
            && !is_output_field()(item),
        is_identity_field()(item) ==> !is_output_field()(item),
{
    reveal_strlit("argument");
    reveal_strlit("environment-name");
    reveal_strlit("environment-value");
    reveal_strlit("environment-unset");
    reveal_strlit("identity-label");
    reveal_strlit("identity-value");
    reveal_strlit("output-name");
    reveal_strlit("output-validation");
    assert("argument"@[0] == 'a');
    assert("environment-name"@[0] == 'e');
    assert("environment-value"@[0] == 'e');
    assert("environment-unset"@[0] == 'e');
    assert("identity-label"@[0] == 'i');
    assert("identity-value"@[0] == 'i');
    assert("output-name"@[0] == 'o');
    assert("output-validation"@[0] == 'o');
}

proof fn lemma_identity_labels(identities: Seq<IdentityView>)
    ensures
        identity_fields(identities).len() == 2 * identities.len(),
        forall|i: int|
            0 <= i < identity_fields(identities).len() ==> is_identity_field()(
                #[trigger] identity_fields(identities)[i],
            ),
    decreases identities.len(),
{
    if identities.len() > 0 {
        lemma_identity_labels(identities.drop_last());
    }
}

proof fn lemma_output_labels(outputs: Seq<OutputView>)
    ensures
        output_fields(outputs).len() == 2 * outputs.len(),
        forall|i: int|
            0 <= i < output_fields(outputs).len() ==> is_output_field()(
                #[trigger] output_fields(outputs)[i],
            ),
    decreases outputs.len(),
{
    if outputs.len() > 0 {
        lemma_output_labels(outputs.drop_last());
    }
}

proof fn lemma_identity_fields_injective(left: Seq<IdentityView>, right: Seq<IdentityView>)
    requires
        identity_fields(left) == identity_fields(right),
    ensures
        left == right,
    decreases left.len(),
{
    broadcast use vstd::utf8::encode_utf8_decode_utf8;

    lemma_identity_labels(left);
    lemma_identity_labels(right);
    if left.len() > 0 {
        let (a, b) = (identity_fields(left), identity_fields(right));
        let (x, y) = (identity_fields(left.drop_last()), identity_fields(right.drop_last()));
        lemma_identity_labels(left.drop_last());
        lemma_identity_labels(right.drop_last());
        assert(x =~= a.take(x.len() as int));
        assert(y =~= b.take(x.len() as int));
        let (last_left, last_right) = (left.last(), right.last());
        assert(a[x.len() as int] == field("identity-label"@, encode_utf8(last_left.label)));
        assert(b[x.len() as int] == field("identity-label"@, encode_utf8(last_right.label)));
        assert(a[x.len() as int + 1] == field("identity-value"@, last_left.value));
        assert(b[x.len() as int + 1] == field("identity-value"@, last_right.value));
        assert(vstd::utf8::decode_utf8(encode_utf8(last_left.label)) == last_left.label);
        assert(vstd::utf8::decode_utf8(encode_utf8(last_right.label)) == last_right.label);
        assert(last_left == last_right);
        lemma_identity_fields_injective(left.drop_last(), right.drop_last());
        assert(left =~= left.drop_last().push(left.last()));
        assert(right =~= right.drop_last().push(right.last()));
    } else {
        assert(left =~= right);
    }
}

proof fn lemma_validation_token_injective(
    left: ArtifactOutputValidation,
    right: ArtifactOutputValidation,
)
    requires
        validation_token(left) == validation_token(right),
    ensures
        left == right,
{
    reveal_strlit("regular-file");
    reveal_strlit("nonempty-file");
    assert("regular-file"@.len() != "nonempty-file"@.len());
}

proof fn lemma_output_fields_injective(left: Seq<OutputView>, right: Seq<OutputView>)
    requires
        output_fields(left) == output_fields(right),
    ensures
        left.len() == right.len(),
        forall|i: int| 0 <= i < left.len() ==> same_output(#[trigger] left[i], right[i]),
    decreases left.len(),
{
    broadcast use vstd::utf8::encode_utf8_decode_utf8;

    lemma_output_labels(left);
    lemma_output_labels(right);
    if left.len() > 0 {
        let (a, b) = (output_fields(left), output_fields(right));
        let (x, y) = (output_fields(left.drop_last()), output_fields(right.drop_last()));
        lemma_output_labels(left.drop_last());
        lemma_output_labels(right.drop_last());
        assert(x =~= a.take(x.len() as int));
        assert(y =~= b.take(x.len() as int));
        let (last_left, last_right) = (left.last(), right.last());
        let (token_left, token_right) = (
            validation_token(last_left.validation),
            validation_token(last_right.validation),
        );
        assert(a[x.len() as int] == field("output-name"@, encode_utf8(last_left.name)));
        assert(b[x.len() as int] == field("output-name"@, encode_utf8(last_right.name)));
        assert(a[x.len() as int + 1] == field("output-validation"@, encode_utf8(token_left)));
        assert(b[x.len() as int + 1] == field("output-validation"@, encode_utf8(token_right)));
        assert(vstd::utf8::decode_utf8(encode_utf8(last_left.name)) == last_left.name);
        assert(vstd::utf8::decode_utf8(encode_utf8(last_right.name)) == last_right.name);
        assert(vstd::utf8::decode_utf8(encode_utf8(token_left)) == token_left);
        assert(vstd::utf8::decode_utf8(encode_utf8(token_right)) == token_right);
        lemma_validation_token_injective(last_left.validation, last_right.validation);
        lemma_output_fields_injective(left.drop_last(), right.drop_last());
        assert forall|i: int| 0 <= i < left.len() implies same_output(
            #[trigger] left[i],
            right[i],
        ) by {
            if i < left.len() - 1 {
                assert(same_output(left.drop_last()[i], right.drop_last()[i]));
            }
        }
    }
}

proof fn lemma_output_fields_ignore_destinations(left: Seq<OutputView>, right: Seq<OutputView>)
    requires
        left.len() == right.len(),
        forall|i: int| 0 <= i < left.len() ==> same_output(#[trigger] left[i], right[i]),
    ensures
        output_fields(left) == output_fields(right),
    decreases left.len(),
{
    if left.len() > 0 {
        assert forall|i: int| 0 <= i < left.len() - 1 implies same_output(
            #[trigger] left.drop_last()[i],
            right.drop_last()[i],
        ) by {
            assert(same_output(left[i], right[i]));
        }
        lemma_output_fields_ignore_destinations(left.drop_last(), right.drop_last());
        assert(same_output(left[left.len() - 1], right[left.len() - 1]));
    }
}

/// The fields of a content key determine every identity dimension of a description.
pub proof fn lemma_key_fields_determine_identity(
    left: ArtifactCacheSpecView,
    left_digest: Seq<u8>,
    right: ArtifactCacheSpecView,
    right_digest: Seq<u8>,
)
    requires
        key_fields(left, left_digest) == key_fields(right, right_digest),
    ensures
        same_identity(left, right),
        left_digest == right_digest,
{
    broadcast use vstd::utf8::encode_utf8_decode_utf8;

    let name = "environment-name"@;
    let (li, ri) = (
        sorted_by(left.identities, identity_before()),
        sorted_by(right.identities, identity_before()),
    );
    let (la, ra) = (command_fields(left.arguments), command_fields(right.arguments));
    let (le, re) = (
        environment_fields(left.environment, name),
        environment_fields(right.environment, name),
    );
    let (ld, rd) = (identity_fields(li), identity_fields(ri));
    let (lo, ro) = (output_fields(left.outputs), output_fields(right.outputs));
    let (a, b) = (key_fields(left, left_digest), key_fields(right, right_digest));
    lemma_environment_labels(left.environment, name);
    lemma_environment_labels(right.environment, name);
    lemma_identity_labels(li);
    lemma_identity_labels(ri);
    lemma_output_labels(left.outputs);
    lemma_output_labels(right.outputs);
    assert(a[0] == field("namespace"@, encode_utf8(left.namespace)));
    assert(b[0] == field("namespace"@, encode_utf8(right.namespace)));
    assert(a[1] == field("recipe-id"@, encode_utf8(left.recipe_id)));
    assert(b[1] == field("recipe-id"@, encode_utf8(right.recipe_id)));
    assert(a[2] == field("input-digest"@, left_digest));
    assert(b[2] == field("input-digest"@, right_digest));
    assert(vstd::utf8::decode_utf8(encode_utf8(left.namespace)) == left.namespace);
    assert(vstd::utf8::decode_utf8(encode_utf8(right.namespace)) == right.namespace);
    assert(vstd::utf8::decode_utf8(encode_utf8(left.recipe_id)) == left.recipe_id);
    assert(vstd::utf8::decode_utf8(encode_utf8(right.recipe_id)) == right.recipe_id);
    assert(a.skip(3) =~= la + (le + (ld + lo)));
    assert(b.skip(3) =~= ra + (re + (rd + ro)));
    assert forall|i: int| 0 <= i < (le + (ld + lo)).len() implies !is_command_field()(
        #[trigger] (le + (ld + lo))[i],
    ) by {
        let item = (le + (ld + lo))[i];
        lemma_field_kinds_differ(item);
        if i < le.len() {
            assert(item == le[i]);
        } else if i < le.len() + ld.len() {
            assert(item == ld[i - le.len()]);
        } else {
            assert(item == lo[i - le.len() - ld.len()]);
        }
    }
    assert forall|i: int| 0 <= i < (re + (rd + ro)).len() implies !is_command_field()(
        #[trigger] (re + (rd + ro))[i],
    ) by {
        let item = (re + (rd + ro))[i];
        lemma_field_kinds_differ(item);
        if i < re.len() {
            assert(item == re[i]);
        } else if i < re.len() + rd.len() {
            assert(item == rd[i - re.len()]);
        } else {
            assert(item == ro[i - re.len() - rd.len()]);
        }
    }
    lemma_fields_split(la, le + (ld + lo), ra, re + (rd + ro), is_command_field());
    assert forall|i: int| 0 <= i < (ld + lo).len() implies !is_environment_field(name)(
        #[trigger] (ld + lo)[i],
    ) by {
        let item = (ld + lo)[i];
        lemma_field_kinds_differ(item);
        if i < ld.len() {
            assert(item == ld[i]);
        } else {
            assert(item == lo[i - ld.len()]);
        }
    }
    assert forall|i: int| 0 <= i < (rd + ro).len() implies !is_environment_field(name)(
        #[trigger] (rd + ro)[i],
    ) by {
        let item = (rd + ro)[i];
        lemma_field_kinds_differ(item);
        if i < rd.len() {
            assert(item == rd[i]);
        } else {
            assert(item == ro[i - rd.len()]);
        }
    }
    lemma_fields_split(le, ld + lo, re, rd + ro, is_environment_field(name));
    assert forall|i: int| 0 <= i < lo.len() implies !is_identity_field()(#[trigger] lo[i]) by {
        lemma_field_kinds_differ(lo[i]);
    }
    assert forall|i: int| 0 <= i < ro.len() implies !is_identity_field()(#[trigger] ro[i]) by {
        lemma_field_kinds_differ(ro[i]);
    }
    lemma_fields_split(ld, lo, rd, ro, is_identity_field());
    assert(la.len() == left.arguments.len() && ra.len() == right.arguments.len());
    assert forall|i: int| 0 <= i < left.arguments.len() implies #[trigger] left.arguments[i]
        == right.arguments[i] by {
        assert(la[i] == field("argument"@, left.arguments[i]));
        assert(ra[i] == field("argument"@, right.arguments[i]));
    }
    assert(left.arguments =~= right.arguments);
    lemma_environment_fields_injective(left.environment, right.environment, name);
    lemma_identity_fields_injective(li, ri);
    lemma_output_fields_injective(left.outputs, right.outputs);
}

/// Everything that is hashed for a content key, the domain first.
pub open spec fn key_preimage(spec: ArtifactCacheSpecView, input_digest: Seq<u8>) -> Seq<Field> {
    seq![field("domain"@, encode_utf8(ARTIFACT_CACHE_FORMAT@))] + key_fields(spec, input_digest)
}

/// Descriptions that differ in an identity dimension, or whose inputs differ, are hashed
/// differently: they can share a content key only through a SHA-256 collision.
pub proof fn lemma_key_identifies_description(
    left: ArtifactCacheSpecView,
    left_digest: Seq<u8>,
    right: ArtifactCacheSpecView,
    right_digest: Seq<u8>,
)
    requires
        forall|i: int|
            0 <= i < key_preimage(left, left_digest).len() ==> fits(
                #[trigger] key_preimage(left, left_digest)[i],
            ),
        forall|i: int|
            0 <= i < key_preimage(right, right_digest).len() ==> fits(
                #[trigger] key_preimage(right, right_digest)[i],
            ),
        !same_identity(left, right) || left_digest != right_digest,
    ensures
        frames(key_preimage(left, left_digest)) != frames(key_preimage(right, right_digest)),
{
    let (a, b) = (key_preimage(left, left_digest), key_preimage(right, right_digest));
    if frames(a) == frames(b) {
        lemma_frames_injective(a, b);
        assert(a.drop_first() =~= key_fields(left, left_digest));
        assert(b.drop_first() =~= key_fields(right, right_digest));
        lemma_key_fields_determine_identity(left, left_digest, right, right_digest);
    }
}

/// Cache location, coordination scope, output destinations and retention never change the key.
pub proof fn lemma_key_ignores_placement(
    left: ArtifactCacheSpecView,
    right: ArtifactCacheSpecView,
    input_digest: Seq<u8>,
)
    requires
        same_identity(left, right),
    ensures
        content_key(left, input_digest) == content_key(right, input_digest),
{
    lemma_output_fields_ignore_destinations(left.outputs, right.outputs);
}

/// The fields of the Cargo rows determine every label, fingerprint and digest.
pub proof fn lemma_rows_fields_injective(left: Seq<CargoRowView>, right: Seq<CargoRowView>)
    requires
        rows_fields(left) == rows_fields(right),
    ensures
        left.len() == right.len(),
        forall|i: int|
            0 <= i < left.len() ==> (#[trigger] left[i]).label == right[i].label
                && left[i].fingerprint == right[i].fingerprint && left[i].input_digest
                == right[i].input_digest,
    decreases left.len(),
{
    broadcast use vstd::utf8::encode_utf8_decode_utf8;

    lemma_rows_fields_length(left);
    lemma_rows_fields_length(right);
    if left.len() > 0 {
        let (a, b) = (rows_fields(left), rows_fields(right));
        let (x, y) = (rows_fields(left.drop_last()), rows_fields(right.drop_last()));
        lemma_rows_fields_length(left.drop_last());
        lemma_rows_fields_length(right.drop_last());
        let (p, q) = (row_fields(left.last()), row_fields(right.last()));
        assert(x =~= a.take(x.len() as int));
        assert(y =~= b.take(x.len() as int));
        assert(p =~= a.skip(x.len() as int));
        assert(q =~= b.skip(x.len() as int));
        assert(p[0] == q[0] && p[1] == q[1] && p[2] == q[2]);
        assert(vstd::utf8::decode_utf8(encode_utf8(left.last().label)) == left.last().label);
        assert(vstd::utf8::decode_utf8(encode_utf8(right.last().label)) == right.last().label);
        lemma_rows_fields_injective(left.drop_last(), right.drop_last());
        assert forall|i: int| 0 <= i < left.len() implies (#[trigger] left[i]).label
            == right[i].label && left[i].fingerprint == right[i].fingerprint
            && left[i].input_digest == right[i].input_digest by {
            if i < left.len() - 1 {
                assert(left.drop_last()[i].label == right.drop_last()[i].label);
            }
        }
    }
}

proof fn lemma_rows_fields_length(rows: Seq<CargoRowView>)
    ensures
        rows_fields(rows).len() == 3 * rows.len(),
    decreases rows.len(),
{
    if rows.len() > 0 {
        lemma_rows_fields_length(rows.drop_last());
    }
}

/// Outputs of different names may be declared in either order.
pub proof fn lemma_output_order_is_irrelevant(
    outputs: Seq<OutputView>,
    first: OutputView,
    second: OutputView,
)
    requires
        no_ties(outputs.push(first).push(second), output_before()),
    ensures
        sorted_by(sorted_by(outputs.push(first), output_before()).push(second), output_before())
            == sorted_by(
            sorted_by(outputs.push(second), output_before()).push(first),
            output_before(),
        ),
{
    broadcast use vstd::seq_lib::group_to_multiset_ensures;

    let before = output_before();
    let all = outputs.push(first).push(second);
    let a = sorted_by(outputs.push(first), before);
    let b = sorted_by(outputs.push(second), before);
    lemma_bytes_order(|output: OutputView| encode_utf8(output.name), before);
    lemma_sorted_is_permutation(outputs.push(first), before);
    lemma_sorted_is_permutation(outputs.push(second), before);
    assert(all.to_multiset() =~= a.push(second).to_multiset());
    assert(all.to_multiset() =~= b.push(first).to_multiset());
    lemma_given_order_is_irrelevant(all, a.push(second), before);
    lemma_given_order_is_irrelevant(all, b.push(first), before);
}

/// Identities of different labels may be declared in any order.
pub proof fn lemma_identity_order_is_irrelevant(
    spec: ArtifactCacheSpecView,
    identities: Seq<IdentityView>,
    input_digest: Seq<u8>,
)
    requires
        no_ties(spec.identities, identity_before()),
        spec.identities.to_multiset() == identities.to_multiset(),
    ensures
        content_key(spec, input_digest) == content_key(
            ArtifactCacheSpecView { identities, ..spec },
            input_digest,
        ),
{
    lemma_bytes_order(
        |identity: IdentityView| encode_utf8(identity.label),
        identity_before(),
    );
    lemma_given_order_is_irrelevant(spec.identities, identities, identity_before());
}

/// What the combined digest takes in of a Cargo input set.
pub struct CargoIdentity {
    /// Label of the set.
    pub label: Seq<char>,
    /// Fingerprint of the build.
    pub fingerprint: Seq<u8>,
    /// Digest of the inputs.
    pub input_digest: Seq<u8>,
}

/// What the combined digest takes in of each Cargo input set.
pub open spec fn cargo_identities(inputs: Seq<CargoInputView>) -> Seq<CargoIdentity> {
    inputs.map_values(
        |input: CargoInputView|
            CargoIdentity {
                label: input.label,
                fingerprint: input.resolved.fingerprint,
                input_digest: input.resolved.input_digest,
            },
    )
}

/// Cargo input sets stand in the order of their labels.
pub open spec fn cargo_before() -> spec_fn(CargoIdentity, CargoIdentity) -> bool {
    |left: CargoIdentity, right: CargoIdentity|
        bytes_less(encode_utf8(left.label), encode_utf8(right.label))
}

spec fn row_identity() -> spec_fn(CargoRowView) -> CargoIdentity {
    |row: CargoRowView|
        CargoIdentity {
            label: row.label,
            fingerprint: row.fingerprint,
            input_digest: row.input_digest,
        }
}

proof fn lemma_rows_fields_of_identities(left: Seq<CargoRowView>, right: Seq<CargoRowView>)
    requires
        left.map_values(row_identity()) == right.map_values(row_identity()),
    ensures
        rows_fields(left) == rows_fields(right),
    decreases left.len(),
{
    let (a, b) = (left.map_values(row_identity()), right.map_values(row_identity()));
    assert(a.len() == b.len());
    if left.len() > 0 {
        let (x, y) = (left.drop_last(), right.drop_last());
        assert(x.map_values(row_identity()) =~= a.drop_last());
        assert(y.map_values(row_identity()) =~= b.drop_last());
        lemma_rows_fields_of_identities(x, y);
        assert(a[a.len() - 1] == b[a.len() - 1]);
        assert(row_identity()(left.last()) == row_identity()(right.last()));
    }
}

/// Cargo input sets of different labels may be declared in any order.
pub proof fn lemma_cargo_input_order_is_irrelevant(
    left: Seq<CargoInputView>,
    right: Seq<CargoInputView>,
    declared_digest: Seq<u8>,
)
    requires
        no_ties(cargo_identities(left), cargo_before()),
        cargo_identities(left).to_multiset() == cargo_identities(right).to_multiset(),
    ensures
        combined_input_digest(left, declared_digest) == combined_input_digest(
            right,
            declared_digest,
        ),
{
    broadcast use vstd::seq_lib::group_to_multiset_ensures;

    let (a, b) = (cargo_identities(left), cargo_identities(right));
    assert(a.to_multiset().len() == a.len());
    assert(b.to_multiset().len() == b.len());
    lemma_bytes_order(|input: CargoIdentity| encode_utf8(input.label), cargo_before());
    lemma_given_order_is_irrelevant(a, b, cargo_before());
    assert(rows_of(left).map_values(row_identity()) =~= a);
    assert(rows_of(right).map_values(row_identity()) =~= b);
    lemma_sorted_map(rows_of(left), row_identity(), row_before(), cargo_before());
    lemma_sorted_map(rows_of(right), row_identity(), row_before(), cargo_before());
    lemma_rows_fields_of_identities(sorted_rows(left), sorted_rows(right));
}

/// What a content key takes in of an output.
pub struct OutputIdentity {
    /// Name of the output.
    pub name: Seq<char>,
    /// Validation of the output.
    pub validation: ArtifactOutputValidation,
}

/// What a content key takes in of each output.
pub open spec fn output_identities(outputs: Seq<OutputView>) -> Seq<OutputIdentity> {
    outputs.map_values(
        |output: OutputView| OutputIdentity { name: output.name, validation: output.validation },
    )
}

/// Whether two descriptions are of the same artifact set, but for their inputs and tools: they
/// agree in everything but the cache location, coordination scope, destinations, retention and
/// the order of declarations.
pub open spec fn same_artifact_set(
    left: ArtifactCacheSpecView,
    right: ArtifactCacheSpecView,
) -> bool {
    &&& left.namespace == right.namespace
    &&& left.recipe_id == right.recipe_id
    &&& left.arguments == right.arguments
    &&& left.environment == right.environment
    &&& left.identities.to_multiset() == right.identities.to_multiset()
    &&& output_identities(left.outputs).to_multiset() == output_identities(
        right.outputs,
    ).to_multiset()
    &&& cargo_identities(left.cargo_build_inputs).to_multiset() == cargo_identities(
        right.cargo_build_inputs,
    ).to_multiset()
}

/// Whether a description is accepted, with its outputs in the order of their names.
pub open spec fn is_accepted(spec: ArtifactCacheSpecView) -> bool {
    description_violation(spec) is None && in_order(spec.outputs, output_before())
}

spec fn output_identity_before() -> spec_fn(OutputIdentity, OutputIdentity) -> bool {
    |left: OutputIdentity, right: OutputIdentity|
        bytes_less(encode_utf8(left.name), encode_utf8(right.name))
}

proof fn lemma_texts_do_not_tie(left: Seq<char>, right: Seq<char>)
    requires
        left != right,
    ensures
        bytes_less(encode_utf8(left), encode_utf8(right)) || bytes_less(
            encode_utf8(right),
            encode_utf8(left),
        ),
{
    broadcast use vstd::utf8::encode_utf8_decode_utf8;

    assert(vstd::utf8::decode_utf8(encode_utf8(left)) == left);
    assert(vstd::utf8::decode_utf8(encode_utf8(right)) == right);
    lemma_bytes_less_total(encode_utf8(left), encode_utf8(right));
}

proof fn lemma_accepted_do_not_tie(spec: ArtifactCacheSpecView)
    requires
        is_accepted(spec),
    ensures
        no_ties(spec.identities, identity_before()),
        no_ties(cargo_identities(spec.cargo_build_inputs), cargo_before()),
        no_ties(output_identities(spec.outputs), output_identity_before()),
        in_order(output_identities(spec.outputs), output_identity_before()),
{
    lemma_accepted_names_differ(spec);
    let identities = spec.identities;
    let cargo = cargo_identities(spec.cargo_build_inputs);
    let outputs = output_identities(spec.outputs);
    assert forall|i: int, j: int|
        #![trigger identities[i], identities[j]]
        0 <= i < identities.len() && 0 <= j < identities.len() && i != j implies identity_before()(
        identities[i],
        identities[j],
    ) || identity_before()(identities[j], identities[i]) || identities[i] == identities[j] by {
        let labels = identity_labels(identities);
        assert(labels[i] == identities[i].label && labels[j] == identities[j].label);
        assert(labels[i] != labels[j]);
        lemma_texts_do_not_tie(labels[i], labels[j]);
    }
    assert forall|i: int, j: int|
        #![trigger cargo[i], cargo[j]]
        0 <= i < cargo.len() && 0 <= j < cargo.len() && i != j implies cargo_before()(
        cargo[i],
        cargo[j],
    ) || cargo_before()(cargo[j], cargo[i]) || cargo[i] == cargo[j] by {
        let labels = cargo_labels(spec.cargo_build_inputs);
        assert(labels[i] == cargo[i].label && labels[j] == cargo[j].label);
        assert(labels[i] != labels[j]);
        lemma_texts_do_not_tie(labels[i], labels[j]);
    }
    assert forall|i: int, j: int|
        #![trigger outputs[i], outputs[j]]
        0 <= i < outputs.len() && 0 <= j < outputs.len() && i != j implies output_identity_before()(
        outputs[i],
        outputs[j],
    ) || output_identity_before()(outputs[j], outputs[i]) || outputs[i] == outputs[j] by {
        let (a, b) = (spec.outputs[i], spec.outputs[j]);
        assert(a.name != b.name);
        lemma_texts_do_not_tie(a.name, b.name);
    }
    assert forall|i: int, j: int|
        #![trigger outputs[i], outputs[j]]
        0 <= i < j < outputs.len() implies !output_identity_before()(outputs[j], outputs[i]) by {
        assert(!output_before()(spec.outputs[j], spec.outputs[i]));
    }
}

proof fn lemma_same_set_has_same_identity(
    left: ArtifactCacheSpecView,
    right: ArtifactCacheSpecView,
)
    requires
        is_accepted(left),
        is_accepted(right),
        same_artifact_set(left, right),
    ensures
        same_identity(left, right),
{
    let (a, b) = (output_identities(left.outputs), output_identities(right.outputs));
    lemma_accepted_do_not_tie(left);
    lemma_accepted_do_not_tie(right);
    lemma_bytes_order(
        |identity: IdentityView| encode_utf8(identity.label),
        identity_before(),
    );
    lemma_given_order_is_irrelevant(left.identities, right.identities, identity_before());
    lemma_bytes_order(
        |output: OutputIdentity| encode_utf8(output.name),
        output_identity_before(),
    );
    lemma_strictly_ordered_unique(a, b, output_identity_before());
    assert(a.len() == left.outputs.len() && b.len() == right.outputs.len());
    assert forall|i: int| 0 <= i < left.outputs.len() implies same_output(
        #[trigger] left.outputs[i],
        right.outputs[i],
    ) by {
        assert(a[i] == b[i]);
    }
}

proof fn lemma_same_identity_is_same_set(
    left: ArtifactCacheSpecView,
    right: ArtifactCacheSpecView,
)
    requires
        same_identity(left, right),
        cargo_identities(left.cargo_build_inputs).to_multiset() == cargo_identities(
            right.cargo_build_inputs,
        ).to_multiset(),
    ensures
        same_artifact_set(left, right),
{
    let (a, b) = (output_identities(left.outputs), output_identities(right.outputs));
    lemma_sorted_is_permutation(left.identities, identity_before());
    lemma_sorted_is_permutation(right.identities, identity_before());
    assert forall|i: int| 0 <= i < a.len() implies a[i] == b[i] by {
        assert(same_output(left.outputs[i], right.outputs[i]));
    }
    assert(a =~= b);
}

/// Everything that is hashed of the declared inputs and tools as a walk met them.
pub open spec fn declared_fields(spec: ArtifactCacheSpecView, visits: Seq<Visit>) -> Seq<Field> {
    walked(declared_start(spec), met_of(visits)).fields
}

/// Everything that is hashed for the input digest of a description, the domain first.
pub open spec fn input_fields(spec: ArtifactCacheSpecView, visits: Seq<Visit>) -> Seq<Field> {
    if spec.cargo_build_inputs.len() == 0 {
        declared_fields(spec, visits)
    } else {
        seq![
            field("domain"@, encode_utf8(CARGO_INPUTS_DOMAIN@)),
            field("declared-input-digest"@, tree_digest(declared_start(spec), visits)),
        ] + rows_fields(sorted_rows(spec.cargo_build_inputs))
    }
}

/// Everything that is hashed for the content key of a description, the domain first.
pub open spec fn all_key_fields(spec: ArtifactCacheSpecView, visits: Seq<Visit>) -> Seq<Field> {
    key_preimage(spec, sha256(frames(input_fields(spec, visits))))
}

/// Whether everything that is hashed for a content key can be written down in full.
pub open spec fn key_fits(spec: ArtifactCacheSpecView, visits: Seq<Visit>) -> bool {
    &&& all_fit(declared_fields(spec, visits))
    &&& all_fit(input_fields(spec, visits))
    &&& all_fit(all_key_fields(spec, visits))
}

/// Whether SHA-256 collides on what is hashed for the content keys of two descriptions.
pub open spec fn keys_collide(
    left: ArtifactCacheSpecView,
    left_visits: Seq<Visit>,
    right: ArtifactCacheSpecView,
    right_visits: Seq<Visit>,
) -> bool {
    ||| collides(
        frames(declared_fields(left, left_visits)),
        frames(declared_fields(right, right_visits)),
    )
    ||| collides(
        frames(input_fields(left, left_visits)),
        frames(input_fields(right, right_visits)),
    )
    ||| collides(
        frames(all_key_fields(left, left_visits)),
        frames(all_key_fields(right, right_visits)),
    )
}

proof fn lemma_key_is_hashed(
    resolved: ResolvedKey,
    spec: ArtifactCacheSpecView,
    visits: Seq<Visit>,
)
    requires
        is_key_of(resolved, spec, tree_digest(declared_start(spec), visits)),
    ensures
        resolved.input_digest@ == sha256(frames(input_fields(spec, visits))),
        resolved.key@ == sha256(frames(all_key_fields(spec, visits))),
{
    if spec.cargo_build_inputs.len() > 0 {
        assert(input_fields(spec, visits) =~= seq![
            field("domain"@, encode_utf8(CARGO_INPUTS_DOMAIN@)),
        ] + (seq![field("declared-input-digest"@, tree_digest(declared_start(spec), visits))]
            + rows_fields(sorted_rows(spec.cargo_build_inputs))));
    }
}

proof fn lemma_domains_differ()
    ensures
        encode_utf8(CARGO_INPUTS_DOMAIN@) != encode_utf8(DECLARED_INPUTS_DOMAIN@),
{
    broadcast use vstd::utf8::encode_utf8_decode_utf8;

    reveal_strlit("artifact-set-inputs-v1");
    reveal_strlit("artifact-set-inputs-with-cargo-v1");
    let (a, b) = (CARGO_INPUTS_DOMAIN@, DECLARED_INPUTS_DOMAIN@);
    assert(a.len() != b.len());
    assert(vstd::utf8::decode_utf8(encode_utf8(a)) == a);
    assert(vstd::utf8::decode_utf8(encode_utf8(b)) == b);
}

proof fn lemma_rows_tell_cargo_inputs(left: Seq<CargoInputView>, right: Seq<CargoInputView>)
    requires
        rows_fields(sorted_rows(left)) == rows_fields(sorted_rows(right)),
    ensures
        cargo_identities(left).to_multiset() == cargo_identities(right).to_multiset(),
{
    let (a, b) = (sorted_rows(left), sorted_rows(right));
    lemma_rows_fields_injective(a, b);
    assert(a.map_values(row_identity()) =~= b.map_values(row_identity()));
    assert(rows_of(left).map_values(row_identity()) =~= cargo_identities(left));
    assert(rows_of(right).map_values(row_identity()) =~= cargo_identities(right));
    lemma_sorted_map(rows_of(left), row_identity(), row_before(), cargo_before());
    lemma_sorted_map(rows_of(right), row_identity(), row_before(), cargo_before());
    lemma_sorted_is_permutation(cargo_identities(left), cargo_before());
    lemma_sorted_is_permutation(cargo_identities(right), cargo_before());
}

proof fn lemma_input_fields_tell_inputs(
    left: ArtifactCacheSpecView,
    left_visits: Seq<Visit>,
    right: ArtifactCacheSpecView,
    right_visits: Seq<Visit>,
)
    requires
        input_fields(left, left_visits) == input_fields(right, right_visits),
    ensures
        cargo_identities(left.cargo_build_inputs).to_multiset() == cargo_identities(
            right.cargo_build_inputs,
        ).to_multiset(),
        tree_digest(declared_start(left), left_visits) == tree_digest(
            declared_start(right),
            right_visits,
        ),
{
    let (a, b) = (input_fields(left, left_visits), input_fields(right, right_visits));
    let (cargo, others) = (left.cargo_build_inputs, right.cargo_build_inputs);
    lemma_walk_keeps_fields(declared_start(left), met_of(left_visits));
    lemma_walk_keeps_fields(declared_start(right), met_of(right_visits));
    lemma_domains_differ();
    let domain = field("domain"@, encode_utf8(DECLARED_INPUTS_DOMAIN@));
    assert(declared_start(left).fields[0] == domain);
    assert(declared_start(right).fields[0] == domain);
    assert(declared_fields(left, left_visits)[0] == domain);
    assert(declared_fields(right, right_visits)[0] == domain);
    if cargo.len() == 0 {
        assert(others.len() == 0);
        assert(cargo_identities(cargo) =~= cargo_identities(others));
    } else {
        assert(others.len() > 0);
        assert(a[1] == b[1]);
        assert(a.skip(2) =~= rows_fields(sorted_rows(cargo)));
        assert(b.skip(2) =~= rows_fields(sorted_rows(others)));
        lemma_rows_tell_cargo_inputs(cargo, others);
    }
}

/// A content key says what an artifact set is and what it is built from, and nothing else.
///
/// Two accepted descriptions of the same artifact set share their key when the
/// same lies in their declared inputs and tools, wherever those and the caches
/// are and in whichever order everything is declared. Descriptions that share
/// their key are of the same artifact set, and their inputs and tools hold the
/// same files and directories under the same labels, unless SHA-256 collides.
pub proof fn lemma_key_tells_artifact_sets(
    left: ArtifactCacheSpecView,
    left_key: ResolvedKey,
    left_visits: Seq<Visit>,
    left_places: spec_fn(Seq<u8>) -> Place,
    left_excluded: Seq<Seq<u8>>,
    right: ArtifactCacheSpecView,
    right_key: ResolvedKey,
    right_visits: Seq<Visit>,
    right_places: spec_fn(Seq<u8>) -> Place,
    right_excluded: Seq<Seq<u8>>,
)
    requires
        is_accepted(left),
        is_accepted(right),
        is_whole_walk(declared_start(left), left_visits, left_excluded),
        is_whole_walk(declared_start(right), right_visits, right_excluded),
        is_walk_over(left_places, declared_start(left), left_visits),
        is_walk_over(right_places, declared_start(right), right_visits),
        is_key_of(left_key, left, tree_digest(declared_start(left), left_visits)),
        is_key_of(right_key, right, tree_digest(declared_start(right), right_visits)),
    ensures
        same_artifact_set(left, right) && labels_of(declared_of(left)).to_multiset() == labels_of(
            declared_of(right),
        ).to_multiset() && places_alike(left_places, left_excluded, right_places, right_excluded)
            ==> left_key.key@ == right_key.key@,
        left_key.key@ == right_key.key@ && key_fits(left, left_visits) && key_fits(
            right,
            right_visits,
        ) ==> keys_collide(left, left_visits, right, right_visits) || (same_artifact_set(
            left,
            right,
        ) && lies_at(declared_start(left), left_visits, right_places) && lies_at(
            declared_start(right),
            right_visits,
            left_places,
        )),
{
    let (a, b) = (
        tree_digest(declared_start(left), left_visits),
        tree_digest(declared_start(right), right_visits),
    );
    if same_artifact_set(left, right) && labels_of(declared_of(left)).to_multiset() == labels_of(
        declared_of(right),
    ).to_multiset() && places_alike(left_places, left_excluded, right_places, right_excluded) {
        lemma_same_trees_hash_alike(
            DECLARED_INPUTS_DOMAIN@,
            declared_of(left),
            left_visits,
            left_places,
            left_excluded,
            declared_of(right),
            right_visits,
            right_places,
            right_excluded,
        );
        lemma_accepted_do_not_tie(left);
        lemma_cargo_input_order_is_irrelevant(
            left.cargo_build_inputs,
            right.cargo_build_inputs,
            a,
        );
        lemma_same_set_has_same_identity(left, right);
        lemma_key_ignores_placement(left, right, left_key.input_digest@);
    }
    if left_key.key@ == right_key.key@ && key_fits(left, left_visits) && key_fits(
        right,
        right_visits,
    ) && !keys_collide(left, left_visits, right, right_visits) {
        let (x, y) = (
            sha256(frames(input_fields(left, left_visits))),
            sha256(frames(input_fields(right, right_visits))),
        );
        lemma_key_is_hashed(left_key, left, left_visits);
        lemma_key_is_hashed(right_key, right, right_visits);
        if !same_identity(left, right) || x != y {
            lemma_key_identifies_description(left, x, right, y);
        }
        lemma_frames_injective(
            input_fields(left, left_visits),
            input_fields(right, right_visits),
        );
        lemma_input_fields_tell_inputs(left, left_visits, right, right_visits);
        lemma_same_identity_is_same_set(left, right);
        lemma_same_digest_means_same_trees(
            DECLARED_INPUTS_DOMAIN@,
            declared_of(left),
            left_visits,
            left_places,
            declared_of(right),
            right_visits,
            right_places,
        );
    }
}

} // verus!

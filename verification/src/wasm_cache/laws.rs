//! What the fingerprint of a build says.

use vstd::prelude::*;
use vstd::string::*;
use vstd::utf8::{decode_utf8, encode_utf8};
use super::identity::{
    argument_fields, distinct_packages, environment_fields, fingerprint_fields,
    is_environment_field, lemma_environment_fields_injective, lemma_environment_labels,
    package_fields,
};
use super::spec::{WasmBuildSpecView, CACHE_FORMAT_VERSION};
use crate::digest::{field, fits, frames, lemma_fields_split, lemma_frames_injective, Field};
use crate::order::{
    lemma_bytes_less_total, lemma_bytes_order, lemma_given_order_is_irrelevant, text_before,
};
use crate::settings::SettingView;

verus! {

/// What identifies one exact build: its description, its environment, its tools and its inputs.
pub struct BuildIdentity {
    /// Description of the build.
    pub spec: WasmBuildSpecView,
    /// Effective environment.
    pub environment: Seq<SettingView>,
    /// What Cargo says about itself.
    pub cargo_identity: Seq<u8>,
    /// What rustc says about itself.
    pub rustc_identity: Seq<u8>,
    /// Digest of the source inputs.
    pub input_digest: Seq<u8>,
}

/// The fields of the fingerprint of a build.
pub open spec fn identity_fields(build: BuildIdentity) -> Seq<Field> {
    fingerprint_fields(
        build.spec,
        build.environment,
        build.cargo_identity,
        build.rustc_identity,
        build.input_digest,
    )
}

/// Whether two builds agree in everything that a fingerprint takes in.
pub open spec fn same_build(left: BuildIdentity, right: BuildIdentity) -> bool {
    &&& distinct_packages(left.spec.packages) == distinct_packages(right.spec.packages)
    &&& left.spec.target == right.spec.target
    &&& left.spec.profile_target_dir == right.spec.profile_target_dir
    &&& left.spec.cargo_profile_args == right.spec.cargo_profile_args
    &&& left.environment == right.environment
    &&& left.cargo_identity == right.cargo_identity
    &&& left.rustc_identity == right.rustc_identity
    &&& left.input_digest == right.input_digest
}

spec fn is_package_field() -> spec_fn(Field) -> bool {
    |item: Field| item.label == "package"@
}

spec fn is_argument_field() -> spec_fn(Field) -> bool {
    |item: Field| item.label == "cargo-argument"@
}

proof fn lemma_labels_differ()
    ensures
        "package"@ != "target"@,
        "package"@ != "profile-target-dir"@,
        "package"@ != "cargo-argument"@,
        "package"@ != "environment-key"@,
        "package"@ != "environment-value"@,
        "package"@ != "environment-unset"@,
        "package"@ != "cargo-identity"@,
        "package"@ != "rustc-identity"@,
        "package"@ != "source-input-digest"@,
        "cargo-argument"@ != "environment-key"@,
        "cargo-argument"@ != "environment-value"@,
        "cargo-argument"@ != "environment-unset"@,
        "cargo-argument"@ != "cargo-identity"@,
        "cargo-argument"@ != "rustc-identity"@,
        "cargo-argument"@ != "source-input-digest"@,
        "cargo-identity"@ != "environment-key"@,
        "cargo-identity"@ != "environment-value"@,
        "cargo-identity"@ != "environment-unset"@,
        "rustc-identity"@ != "environment-key"@,
        "rustc-identity"@ != "environment-value"@,
        "rustc-identity"@ != "environment-unset"@,
        "source-input-digest"@ != "environment-key"@,
        "source-input-digest"@ != "environment-value"@,
        "source-input-digest"@ != "environment-unset"@,
{
    reveal_strlit("package");
    reveal_strlit("target");
    reveal_strlit("profile-target-dir");
    reveal_strlit("cargo-argument");
    reveal_strlit("environment-key");
    reveal_strlit("environment-value");
    reveal_strlit("environment-unset");
    reveal_strlit("cargo-identity");
    reveal_strlit("rustc-identity");
    reveal_strlit("source-input-digest");
    assert("package"@[1] == 'a' && "package"@[2] == 'c');
    assert("target"@[2] == 'r');
    assert("profile-target-dir"@[1] == 'r');
    assert("cargo-argument"@[6] == 'a');
    assert("cargo-identity"@[6] == 'i');
    assert("cargo-argument"@[0] == 'c');
    assert("cargo-identity"@[0] == 'c');
    assert("rustc-identity"@[0] == 'r');
    assert("source-input-digest"@[0] == 's');
    assert("environment-key"@[0] == 'e');
    assert("environment-value"@[0] == 'e');
    assert("environment-unset"@[0] == 'e');
}

spec fn tool_fields(build: BuildIdentity) -> Seq<Field> {
    seq![
        field("cargo-identity"@, build.cargo_identity),
        field("rustc-identity"@, build.rustc_identity),
        field("source-input-digest"@, build.input_digest),
    ]
}

spec fn profile_fields(build: BuildIdentity) -> Seq<Field> {
    seq![
        field("target"@, encode_utf8(build.spec.target)),
        field("profile-target-dir"@, encode_utf8(build.spec.profile_target_dir)),
    ]
}

spec fn behind_packages(build: BuildIdentity) -> Seq<Field> {
    profile_fields(build) + behind_profile(build)
}

spec fn behind_profile(build: BuildIdentity) -> Seq<Field> {
    argument_fields(build.spec.cargo_profile_args) + behind_arguments(build)
}

spec fn behind_arguments(build: BuildIdentity) -> Seq<Field> {
    environment_fields(build.environment, "environment-key"@) + tool_fields(build)
}

proof fn lemma_kinds(build: BuildIdentity)
    ensures
        identity_fields(build) == package_fields(distinct_packages(build.spec.packages))
            + behind_packages(build),
        forall|i: int|
            0 <= i < behind_packages(build).len() ==> !is_package_field()(
                #[trigger] behind_packages(build)[i],
            ),
        forall|i: int|
            0 <= i < behind_arguments(build).len() ==> !is_argument_field()(
                #[trigger] behind_arguments(build)[i],
            ),
        forall|i: int|
            0 <= i < tool_fields(build).len() ==> !is_environment_field("environment-key"@)(
                #[trigger] tool_fields(build)[i],
            ),
{
    lemma_labels_differ();
    let packages = package_fields(distinct_packages(build.spec.packages));
    let arguments = argument_fields(build.spec.cargo_profile_args);
    let environment = environment_fields(build.environment, "environment-key"@);
    lemma_environment_labels(build.environment, "environment-key"@);
    assert(identity_fields(build) =~= packages + behind_packages(build));
    assert forall|i: int| 0 <= i < behind_arguments(build).len() implies !is_argument_field()(
        #[trigger] behind_arguments(build)[i],
    ) && !is_package_field()(behind_arguments(build)[i]) by {
        if i < environment.len() {
            assert(behind_arguments(build)[i] == environment[i]);
        } else {
            assert(behind_arguments(build)[i] == tool_fields(build)[i - environment.len()]);
        }
    }
    assert forall|i: int| 0 <= i < behind_packages(build).len() implies !is_package_field()(
        #[trigger] behind_packages(build)[i],
    ) by {
        if i >= 2 {
            assert(behind_packages(build)[i] == behind_profile(build)[i - 2]);
            if i - 2 < arguments.len() {
                assert(behind_profile(build)[i - 2] == arguments[i - 2]);
            } else {
                assert(behind_profile(build)[i - 2] == behind_arguments(build)[i - 2
                    - arguments.len()]);
            }
        } else {
            assert(behind_packages(build)[i] == profile_fields(build)[i]);
        }
    }
}

/// The fields of a fingerprint determine everything that identifies a build.
pub proof fn lemma_fingerprint_fields_determine_build(left: BuildIdentity, right: BuildIdentity)
    requires
        identity_fields(left) == identity_fields(right),
    ensures
        same_build(left, right),
{
    broadcast use vstd::utf8::encode_utf8_decode_utf8;

    lemma_kinds(left);
    lemma_kinds(right);
    let (lp, rp) = (distinct_packages(left.spec.packages), distinct_packages(right.spec.packages));
    let (lf, rf) = (package_fields(lp), package_fields(rp));
    lemma_fields_split(lf, behind_packages(left), rf, behind_packages(right), is_package_field());
    assert(lf.len() == lp.len() && rf.len() == rp.len());
    assert forall|i: int| 0 <= i < lp.len() implies #[trigger] lp[i] == rp[i] by {
        assert(lf[i] == field("package"@, encode_utf8(lp[i])));
        assert(rf[i] == field("package"@, encode_utf8(rp[i])));
        assert(decode_utf8(encode_utf8(lp[i])) == lp[i]);
        assert(decode_utf8(encode_utf8(rp[i])) == rp[i]);
    }
    assert(lp =~= rp);
    let (a, b) = (behind_packages(left), behind_packages(right));
    assert(a[0] == profile_fields(left)[0] && b[0] == profile_fields(right)[0]);
    assert(a[1] == profile_fields(left)[1] && b[1] == profile_fields(right)[1]);
    assert(decode_utf8(encode_utf8(left.spec.target)) == left.spec.target);
    assert(decode_utf8(encode_utf8(right.spec.target)) == right.spec.target);
    assert(decode_utf8(encode_utf8(left.spec.profile_target_dir)) == left.spec.profile_target_dir);
    assert(decode_utf8(encode_utf8(right.spec.profile_target_dir))
        == right.spec.profile_target_dir);
    assert(behind_profile(left) =~= a.skip(2));
    assert(behind_profile(right) =~= b.skip(2));
    let (la, ra) = (left.spec.cargo_profile_args, right.spec.cargo_profile_args);
    let (lg, rg) = (argument_fields(la), argument_fields(ra));
    lemma_fields_split(lg, behind_arguments(left), rg, behind_arguments(right), is_argument_field());
    assert(lg.len() == la.len() && rg.len() == ra.len());
    assert forall|i: int| 0 <= i < la.len() implies #[trigger] la[i] == ra[i] by {
        assert(lg[i] == field("cargo-argument"@, la[i]));
        assert(rg[i] == field("cargo-argument"@, ra[i]));
    }
    assert(la =~= ra);
    let name = "environment-key"@;
    lemma_environment_labels(left.environment, name);
    lemma_environment_labels(right.environment, name);
    lemma_fields_split(
        environment_fields(left.environment, name),
        tool_fields(left),
        environment_fields(right.environment, name),
        tool_fields(right),
        is_environment_field(name),
    );
    lemma_environment_fields_injective(left.environment, right.environment, name);
    assert(tool_fields(left)[0] == tool_fields(right)[0]);
    assert(tool_fields(left)[1] == tool_fields(right)[1]);
    assert(tool_fields(left)[2] == tool_fields(right)[2]);
}

/// Everything that is hashed into the fingerprint of a build.
pub open spec fn fingerprint_preimage(build: BuildIdentity) -> Seq<Field> {
    seq![field("domain"@, encode_utf8(CACHE_FORMAT_VERSION@))] + identity_fields(build)
}

/// Builds that differ in what identifies them are hashed differently: they can share a
/// fingerprint only through a SHA-256 collision.
pub proof fn lemma_fingerprint_identifies_build(left: BuildIdentity, right: BuildIdentity)
    requires
        forall|i: int|
            0 <= i < fingerprint_preimage(left).len() ==> fits(
                #[trigger] fingerprint_preimage(left)[i],
            ),
        forall|i: int|
            0 <= i < fingerprint_preimage(right).len() ==> fits(
                #[trigger] fingerprint_preimage(right)[i],
            ),
        !same_build(left, right),
    ensures
        frames(fingerprint_preimage(left)) != frames(fingerprint_preimage(right)),
{
    let (a, b) = (fingerprint_preimage(left), fingerprint_preimage(right));
    if frames(a) == frames(b) {
        lemma_frames_injective(a, b);
        assert(a.drop_first() =~= identity_fields(left));
        assert(b.drop_first() =~= identity_fields(right));
        lemma_fingerprint_fields_determine_build(left, right);
    }
}

/// The order in which packages are declared never changes what is built.
pub proof fn lemma_package_order_is_irrelevant(left: Seq<Seq<char>>, right: Seq<Seq<char>>)
    requires
        left.to_multiset() == right.to_multiset(),
    ensures
        distinct_packages(left) == distinct_packages(right),
{
    broadcast use vstd::utf8::encode_utf8_decode_utf8;

    let before = text_before();
    lemma_bytes_order(|text: Seq<char>| encode_utf8(text), before);
    assert forall|i: int, j: int|
        0 <= i < left.len() && 0 <= j < left.len() && i != j implies before(
        #[trigger] left[i],
        #[trigger] left[j],
    ) || before(left[j], left[i]) || left[i] == left[j] by {
        lemma_bytes_less_total(encode_utf8(left[i]), encode_utf8(left[j]));
        assert(decode_utf8(encode_utf8(left[i])) == left[i]);
        assert(decode_utf8(encode_utf8(left[j])) == left[j]);
    }
    lemma_given_order_is_irrelevant(left, right, before);
}

} // verus!

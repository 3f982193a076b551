//! What a later acquisition makes of an artifact set that an earlier one committed.

use vstd::prelude::*;
use vstd::string::*;
use vstd::utf8::encode_utf8;
use super::acquire::{after_lookup, after_materialization, after_verification, PreparationStage};
use super::key::{is_key_of, ResolvedKey};
use super::layout::output_location;
use super::outputs::{
    after_copies, brings_outputs, entry_look, is_reusable, lemma_destinations_hold_cached_bytes,
    lemma_tampered_entry_is_rejected, manifest_text, outputs_are_complete, valid_infos,
    ArtifactInfo, CopyStep, EntryObservation,
};
use super::spec::ArtifactCacheSpecView;
use super::validation::{description_violation, lemma_accepted_names_differ};
use crate::digest::InputDigest;

verus! {

/// Whether an entry holds the manifest that was written when its outputs were published.
pub open spec fn holds_manifest(
    spec: ArtifactCacheSpecView,
    key: Seq<u8>,
    published: Seq<ArtifactInfo>,
    observed: EntryObservation,
) -> bool {
    observed.manifest_contents matches Ok(found) && found@ == encode_utf8(
        manifest_text(key, spec.outputs, published),
    )
}

/// Sizes and digests of the outputs that were found in an entry.
pub open spec fn found_outputs(
    spec: ArtifactCacheSpecView,
    observed: EntryObservation,
) -> Seq<ArtifactInfo> {
    valid_infos(observed.artifacts@, spec.outputs.len() as int)
}

/// An artifact set that was committed is reused as long as its inputs and its entry are
/// unchanged, whatever became of the destinations.
///
/// `built` is the key that was committed, `again`, `checked` and `after` are
/// the keys that a later preparation resolves one after another. The later
/// preparation finds the committed key, looks the entry up, materializes it
/// and ends as a hit. Every destination then holds the committed bytes.
pub proof fn lemma_committed_set_is_reused(
    spec: ArtifactCacheSpecView,
    declared_digest: Seq<u8>,
    built: ResolvedKey,
    again: ResolvedKey,
    checked: ResolvedKey,
    after: ResolvedKey,
    changes: int,
    entry: Seq<u8>,
    published: Seq<ArtifactInfo>,
    observed: EntryObservation,
    steps: Seq<CopyStep>,
    files: Map<Seq<u8>, Seq<u8>>,
)
    requires
        description_violation(spec) is None,
        is_key_of(built, spec, declared_digest),
        is_key_of(again, spec, declared_digest),
        is_key_of(checked, spec, declared_digest),
        is_key_of(after, spec, declared_digest),
        entry_look(entry, observed) is Well,
        outputs_are_complete(spec, observed),
        found_outputs(spec, observed) == published,
        holds_manifest(spec, built.key@, published, observed),
        brings_outputs(steps, spec.outputs, entry),
        forall|i: int, j: int|
            0 <= i < spec.outputs.len() && 0 <= j < spec.outputs.len() ==> (
            #[trigger] spec.outputs[i]).destination != #[trigger] output_location(entry, j as nat),
    ensures
        again.key@ == built.key@,
        after_verification(changes, again, checked) == PreparationStage::Lookup(again),
        is_reusable(spec, again.key@, entry, observed),
        after_lookup(again, is_reusable(spec, again.key@, entry, observed))
            == PreparationStage::Materialize(again),
        after_materialization(changes, again, after) == PreparationStage::Reused(again),
        forall|i: int|
            0 <= i < spec.outputs.len() ==> after_copies(files, steps)[(
            #[trigger] spec.outputs[i]).destination] == files[output_location(entry, i as nat)],
{
    lemma_accepted_names_differ(spec);
    lemma_destinations_hold_cached_bytes(files, spec, entry, steps);
}

/// An artifact set whose entry was altered is built again: a child or an output that was added or
/// taken away, an output of another size or digest, or another manifest is enough.
pub proof fn lemma_altered_entry_is_rebuilt(
    spec: ArtifactCacheSpecView,
    key: InputDigest,
    resolved: ResolvedKey,
    entry: Seq<u8>,
    published: Seq<ArtifactInfo>,
    observed: EntryObservation,
    at: int,
)
    requires
        resolved.key == key,
        published.len() == spec.outputs.len(),
        ({
            let found = found_outputs(spec, observed);
            ||| !(entry_look(entry, observed) is Well)
            ||| !outputs_are_complete(spec, observed)
            ||| found == published && !holds_manifest(spec, key@, published, observed)
            ||| {
                &&& holds_manifest(spec, key@, published, observed)
                &&& found.len() == spec.outputs.len()
                &&& 0 <= at < spec.outputs.len()
                &&& found[at].bytes != published[at].bytes || found[at].digest@
                    != published[at].digest@
            }
        }),
    ensures
        !is_reusable(spec, resolved.key@, entry, observed),
        after_lookup(resolved, is_reusable(spec, resolved.key@, entry, observed))
            == PreparationStage::Build(resolved),
{
    let found = found_outputs(spec, observed);
    if entry_look(entry, observed) is Well && outputs_are_complete(spec, observed) && !(found
        == published && !holds_manifest(spec, key@, published, observed)) {
        lemma_tampered_entry_is_rejected(spec, key, entry, published, observed, at);
    }
}

} // verus!

//! When staged outputs are complete, when an entry can be reused, and when a preparation ends.

use vstd::prelude::*;
use vstd::string::*;
use vstd::utf8::{encode_utf8, is_ascii_chars};
use super::acquire::{
    after_change, after_lookup, after_materialization, after_verification, first_outdated,
    output_position, PreparationStage,
};
use super::key::{declared_of, ResolvedKey};
use super::layout::{
    content_lock_file, coordination_lock_file, entry_path, namespace_lock_file, namespace_path,
    output_location, staging_root_path,
};
use super::outputs::{
    artifact_verdict, cached_obstacle, covers_outputs, entry_look, expected_entry_names,
    expected_outputs, first_failure, invalid_staged, is_reusable, manifest_text,
    outputs_are_complete, staging_complaints, undeclared_names, undeclared_outputs, valid_infos,
    ArtifactInfo, ArtifactObservation, EntryObservation,
};
use super::spec::{
    ArtifactCacheSpecView, ArtifactOutputValidation, CargoInputView, OutputView,
};
use crate::digest::{digest_of, hex, lemma_hex_text, Field, InputDigest};
use crate::path_laws::{has_no_slash, lemma_joining};
use crate::paths::{components, joined};
use crate::text::{is_digit, lemma_padded_digits, padded};
use crate::tree::byte_strings;
use crate::wasm_cache::error::WasmBuildError;

verus! {

/// Whether an output was found as it has to be: a regular file, and not empty unless it may be.
pub open spec fn is_in_place(observed: ArtifactObservation, output: OutputView) -> bool {
    observed.state is File && (output.validation == ArtifactOutputValidation::NonEmptyFile
        ==> observed.length > 0)
}

/// The name of the file of an output.
pub open spec fn output_file_name(index: nat) -> Seq<u8> {
    encode_utf8(padded(index) + ".artifact"@)
}

/// Whether a name is that of the file of one of `count` outputs.
pub open spec fn is_output_name(name: Seq<u8>, count: nat) -> bool {
    exists|i: nat| i < count && name == #[trigger] output_file_name(i)
}

proof fn lemma_none_undeclared(names: Seq<Seq<u8>>, expected: Seq<Seq<u8>>)
    ensures
        undeclared_names(names, expected).len() == 0 <==> forall|i: int| #![trigger names[i]]
            0 <= i < names.len() ==> expected.contains(names[i]),
{
    let keep = |name: Seq<u8>| !expected.contains(name);
    let some = names.filter(keep);
    assert(some == undeclared_names(names, expected));
    if some.len() == 0 {
        assert forall|i: int| #![trigger names[i]] 0 <= i < names.len() implies expected.contains(
            names[i],
        ) by {
            if keep(names[i]) {
                names.lemma_filter_contains(keep, i);
            }
        }
    } else {
        names.lemma_filter_pred(keep, 0);
        assert(some.contains(some[0]));
        names.lemma_filter_contains_rev(keep, some[0]);
        let i = names.index_of(some[0]);
        assert(!expected.contains(names[i]));
    }
}

proof fn lemma_expected(name: Seq<u8>, count: nat)
    ensures
        expected_outputs(count).contains(name) <==> is_output_name(name, count),
{
    let all = expected_outputs(count);
    if all.contains(name) {
        let i = all.index_of(name);
        assert(name == output_file_name(i as nat));
    }
    if is_output_name(name, count) {
        let i = choose|i: nat| i < count && name == #[trigger] output_file_name(i);
        assert(all[i as int] == name);
    }
}

proof fn lemma_no_failure(observed: Seq<ArtifactObservation>, from: int, at: int)
    requires
        0 <= from <= at < observed.len(),
        first_failure(observed, from) is None,
    ensures
        artifact_verdict(observed[at]) is Ok,
    decreases at - from,
{
    if from < at {
        lemma_no_failure(observed, from + 1, at);
    }
}

proof fn lemma_invalid_staged(
    outputs: Seq<OutputView>,
    observed: Seq<ArtifactObservation>,
    root: Seq<u8>,
    upto: int,
)
    requires
        0 <= upto <= outputs.len(),
        covers_outputs(observed, outputs),
        first_failure(observed, 0) is None,
    ensures
        invalid_staged(outputs, observed, root, upto).len() == 0 <==> forall|i: int|
            #![trigger observed[i]]
            0 <= i < upto ==> is_in_place(observed[i], outputs[i]),
    decreases upto,
{
    if upto > 0 {
        let at = upto - 1;
        lemma_invalid_staged(outputs, observed, root, at);
        lemma_no_failure(observed, 0, at);
        assert(super::outputs::is_complete(observed[at], outputs[at].validation));
    }
}

/// Staged outputs are accepted exactly when every declared one is a regular file, not empty unless
/// it may be, and nothing else lies beside them or in the root of the staging directory.
pub proof fn lemma_accepted_staging(
    outputs: Seq<OutputView>,
    observed: Seq<ArtifactObservation>,
    root: Seq<u8>,
    output_names: Seq<Seq<u8>>,
    root_names: Seq<Seq<u8>>,
)
    requires
        covers_outputs(observed, outputs),
        first_failure(observed, 0) is None,
    ensures
        staging_complaints(outputs, observed, root, output_names, root_names).len() == 0 <==> {
            &&& forall|i: int| #![trigger observed[i]]
                0 <= i < outputs.len() ==> is_in_place(observed[i], outputs[i])
            &&& forall|i: int| #![trigger output_names[i]]
                0 <= i < output_names.len() ==> is_output_name(output_names[i], outputs.len())
            &&& forall|i: int| #![trigger root_names[i]]
                0 <= i < root_names.len() ==> root_names[i] == encode_utf8("outputs"@)
        },
{
    let only = seq![encode_utf8("outputs"@)];
    lemma_invalid_staged(outputs, observed, root, outputs.len() as int);
    lemma_none_undeclared(output_names, expected_outputs(outputs.len()));
    lemma_none_undeclared(root_names, only);
    assert forall|i: int| #![trigger output_names[i]] 0 <= i < output_names.len() implies (
    expected_outputs(outputs.len()).contains(output_names[i]) <==> is_output_name(
        output_names[i],
        outputs.len(),
    )) by {
        lemma_expected(output_names[i], outputs.len());
    }
    assert forall|i: int| #![trigger root_names[i]] 0 <= i < root_names.len() implies (
    only.contains(root_names[i]) <==> root_names[i] == encode_utf8("outputs"@)) by {
        if only.contains(root_names[i]) {
            let k = only.index_of(root_names[i]);
            assert(only[k] == only[0]);
        } else {
            assert(only[0] != root_names[i]);
        }
    }
    let (a, b) = (
        undeclared_names(output_names, expected_outputs(outputs.len())),
        undeclared_names(root_names, only),
    );
    assert(undeclared_outputs(super::layout::outputs_path(root), a).len() == a.len());
    assert(undeclared_outputs(root, b).len() == b.len());
}

proof fn lemma_no_obstacle(observed: Seq<ArtifactObservation>, from: int)
    requires
        0 <= from <= observed.len(),
    ensures
        cached_obstacle(observed, from) is None <==> forall|i: int| #![trigger observed[i]]
            from <= i < observed.len() ==> (artifact_verdict(observed[i]) matches Ok(Some(_))),
    decreases observed.len() - from,
{
    if from < observed.len() {
        lemma_no_obstacle(observed, from + 1);
    }
}

proof fn lemma_infos(observed: Seq<ArtifactObservation>, upto: int)
    requires
        0 <= upto <= observed.len(),
        cached_obstacle(observed, 0) is None,
    ensures
        valid_infos(observed, upto).len() == upto,
        forall|i: int| #![trigger valid_infos(observed, upto)[i]]
            0 <= i < upto ==> observed[i].contents == Some(
                Ok::<ArtifactInfo, String>(valid_infos(observed, upto)[i]),
            ),
    decreases upto,
{
    lemma_no_obstacle(observed, 0);
    if upto > 0 {
        lemma_infos(observed, upto - 1);
        assert(artifact_verdict(observed[upto - 1]) matches Ok(Some(_)));
    }
}

/// An entry is reused only when nothing about it is out of place: it is a directory with no other
/// children than its own, every output is there as a regular file of an accepted size with readable
/// contents, no other file lies beside them, and its manifest says exactly what was found.
pub proof fn lemma_reused_entries_are_intact(
    spec: ArtifactCacheSpecView,
    key: Seq<u8>,
    entry: Seq<u8>,
    observed: EntryObservation,
)
    requires
        is_reusable(spec, key, entry, observed),
        covers_outputs(observed.artifacts@, spec.outputs),
    ensures
        observed.entry is Directory,
        observed.outputs is Directory,
        observed.manifest is File,
        observed.last_used is File || observed.last_used is Missing,
        observed.children is Ok,
        forall|i: int| #![trigger byte_strings(observed.children->Ok_0@)[i]]
            0 <= i < byte_strings(observed.children->Ok_0@).len() ==> {
                let name = byte_strings(observed.children->Ok_0@)[i];
                ||| name == encode_utf8("outputs"@)
                ||| name == encode_utf8("manifest.ic-testkit"@)
                ||| name == encode_utf8(".ic-testkit-last-used"@)
            },
        observed.output_children is Ok,
        forall|i: int| #![trigger byte_strings(observed.output_children->Ok_0@)[i]]
            0 <= i < byte_strings(observed.output_children->Ok_0@).len() ==> is_output_name(
                byte_strings(observed.output_children->Ok_0@)[i],
                spec.outputs.len(),
            ),
        forall|i: int| #![trigger observed.artifacts@[i]]
            0 <= i < spec.outputs.len() ==> is_in_place(observed.artifacts@[i], spec.outputs[i])
                && (observed.artifacts@[i].contents matches Some(Ok(_))),
        exists|infos: Seq<ArtifactInfo>|
            {
                &&& infos.len() == spec.outputs.len()
                &&& forall|i: int| #![trigger infos[i]]
                    0 <= i < infos.len() ==> observed.artifacts@[i].contents == Some(
                        Ok::<ArtifactInfo, String>(infos[i]),
                    )
                &&& observed.manifest_contents is Ok
                &&& observed.manifest_contents->Ok_0@ == encode_utf8(
                    #[trigger] manifest_text(key, spec.outputs, infos),
                )
            },
{
    let all = expected_entry_names();
    let found = observed.artifacts@;
    assert(observed.entry is Directory);
    let children = byte_strings(observed.children->Ok_0@);
    lemma_none_undeclared(children, all);
    assert forall|i: int| #![trigger children[i]] 0 <= i < children.len() implies ({
        ||| children[i] == encode_utf8("outputs"@)
        ||| children[i] == encode_utf8("manifest.ic-testkit"@)
        ||| children[i] == encode_utf8(".ic-testkit-last-used"@)
    }) by {
        assert(all.contains(children[i]));
        let k = all.index_of(children[i]);
        assert(all[0] == encode_utf8("outputs"@));
        assert(all[1] == encode_utf8("manifest.ic-testkit"@));
        assert(all[2] == encode_utf8(".ic-testkit-last-used"@));
        assert(k == 0 || k == 1 || k == 2);
    }
    let names = byte_strings(observed.output_children->Ok_0@);
    lemma_none_undeclared(names, expected_outputs(spec.outputs.len()));
    assert forall|i: int| #![trigger names[i]] 0 <= i < names.len() implies is_output_name(
        names[i],
        spec.outputs.len(),
    ) by {
        lemma_expected(names[i], spec.outputs.len());
    }
    lemma_no_obstacle(found, 0);
    assert forall|i: int| #![trigger found[i]] 0 <= i < spec.outputs.len() implies is_in_place(
        found[i],
        spec.outputs[i],
    ) && (found[i].contents matches Some(Ok(_))) by {
        assert(artifact_verdict(found[i]) matches Ok(Some(_)));
        assert(super::outputs::is_complete(found[i], spec.outputs[i].validation));
    }
    lemma_infos(found, spec.outputs.len() as int);
    let infos = valid_infos(found, spec.outputs.len() as int);
    assert(observed.manifest_contents->Ok_0@ == encode_utf8(
        manifest_text(key, spec.outputs, infos),
    ));
}

/// An entry that is in place in every respect is reused.
pub proof fn lemma_intact_entries_are_reused(
    spec: ArtifactCacheSpecView,
    key: Seq<u8>,
    entry: Seq<u8>,
    observed: EntryObservation,
    infos: Seq<ArtifactInfo>,
)
    requires
        observed.entry is Directory,
        observed.outputs is Directory,
        observed.manifest is File,
        observed.last_used is File || observed.last_used is Missing,
        observed.children is Ok,
        forall|i: int| #![trigger byte_strings(observed.children->Ok_0@)[i]]
            0 <= i < byte_strings(observed.children->Ok_0@).len() ==> {
                let name = byte_strings(observed.children->Ok_0@)[i];
                ||| name == encode_utf8("outputs"@)
                ||| name == encode_utf8("manifest.ic-testkit"@)
                ||| name == encode_utf8(".ic-testkit-last-used"@)
            },
        observed.output_children is Ok,
        forall|i: int| #![trigger byte_strings(observed.output_children->Ok_0@)[i]]
            0 <= i < byte_strings(observed.output_children->Ok_0@).len() ==> is_output_name(
                byte_strings(observed.output_children->Ok_0@)[i],
                spec.outputs.len(),
            ),
        observed.artifacts@.len() == spec.outputs.len(),
        infos.len() == spec.outputs.len(),
        forall|i: int| #![trigger infos[i]]
            0 <= i < infos.len() ==> observed.artifacts@[i].state is File
                && observed.artifacts@[i].contents == Some(Ok::<ArtifactInfo, String>(infos[i])),
        observed.manifest_contents is Ok,
        observed.manifest_contents->Ok_0@ == encode_utf8(manifest_text(key, spec.outputs, infos)),
    ensures
        is_reusable(spec, key, entry, observed),
{
    let all = expected_entry_names();
    let found = observed.artifacts@;
    let children = byte_strings(observed.children->Ok_0@);
    lemma_none_undeclared(children, all);
    assert(all[0] == encode_utf8("outputs"@));
    assert(all[1] == encode_utf8("manifest.ic-testkit"@));
    assert(all[2] == encode_utf8(".ic-testkit-last-used"@));
    let names = byte_strings(observed.output_children->Ok_0@);
    lemma_none_undeclared(names, expected_outputs(spec.outputs.len()));
    assert forall|i: int| #![trigger names[i]]
        0 <= i < names.len() implies expected_outputs(spec.outputs.len()).contains(names[i]) by {
        lemma_expected(names[i], spec.outputs.len());
    }
    lemma_no_obstacle(found, 0);
    assert forall|i: int| #![trigger found[i]] 0 <= i < found.len() implies (artifact_verdict(
        found[i],
    ) matches Ok(Some(_))) by {
        let info = infos[i];
        assert(found[i].state is File && found[i].contents == Some(
            Ok::<ArtifactInfo, String>(info),
        ));
    }
    lemma_infos(found, spec.outputs.len() as int);
    assert(valid_infos(found, spec.outputs.len() as int) =~= infos) by {
        let some = valid_infos(found, spec.outputs.len() as int);
        assert forall|i: int| 0 <= i < infos.len() implies some[i] == infos[i] by {
            assert(found[i].contents == Some(Ok::<ArtifactInfo, String>(infos[i])));
            assert(found[i].contents == Some(Ok::<ArtifactInfo, String>(some[i])));
        }
    }
    assert(outputs_are_complete(spec, observed));
    assert(entry_look(entry, observed) is Well);
}

/// Changed inputs make a preparation start over twice; the third change ends it. Only unchanged
/// inputs lead on, a reusable entry is materialized, and any other is built.
pub proof fn lemma_preparations_retry_twice(
    changes: int,
    resolved: ResolvedKey,
    after: ResolvedKey,
)
    requires
        0 <= changes <= 2,
    ensures
        after_change(changes) == if changes == 2 {
            PreparationStage::GivenUp
        } else {
            PreparationStage::Capture
        },
        resolved.input_digest@ == after.input_digest@ ==> {
            &&& after_verification(changes, resolved, after) == PreparationStage::Lookup(resolved)
            &&& after_materialization(changes, resolved, after) == PreparationStage::Reused(
                resolved,
            )
        },
        resolved.input_digest@ != after.input_digest@ ==> {
            &&& after_verification(changes, resolved, after) == after_change(changes)
            &&& after_materialization(changes, resolved, after) == after_change(changes)
        },
        after_lookup(resolved, true) == PreparationStage::Materialize(resolved),
        after_lookup(resolved, false) == PreparationStage::Build(resolved),
{
}

/// Cargo inputs are current exactly when each resolves to the fingerprint that it was captured
/// with; otherwise the first that does not is reported.
pub proof fn lemma_outdated_inputs_are_found(
    inputs: Seq<CargoInputView>,
    current: Seq<Result<InputDigest, WasmBuildError>>,
    from: int,
)
    requires
        0 <= from <= current.len(),
    ensures
        match first_outdated(inputs, current, from) {
            None => forall|i: int| #![trigger current[i]]
                from <= i < current.len() ==> current[i] is Ok && current[i]->Ok_0@
                    == inputs[i].resolved.fingerprint,
            Some(at) => {
                &&& from <= at < current.len()
                &&& current[at] is Err || current[at]->Ok_0@ != inputs[at].resolved.fingerprint
                &&& forall|i: int| #![trigger current[i]]
                    from <= i < at ==> current[i] is Ok && current[i]->Ok_0@
                        == inputs[i].resolved.fingerprint
            },
        },
    decreases current.len() - from,
{
    if from < current.len() && super::acquire::is_current(inputs[from], current[from]) {
        lemma_outdated_inputs_are_found(inputs, current, from + 1);
    }
}

/// An output is found by its name.
pub proof fn lemma_outputs_are_found(outputs: Seq<OutputView>, name: Seq<char>, from: int)
    requires
        0 <= from <= outputs.len(),
    ensures
        match output_position(outputs, name, from) {
            Some(at) => from <= at < outputs.len() && outputs[at].name == name,
            None => forall|i: int|
                from <= i < outputs.len() ==> (#[trigger] outputs[i]).name != name,
        },
    decreases outputs.len() - from,
{
    if from < outputs.len() && outputs[from].name != name {
        lemma_outputs_are_found(outputs, name, from + 1);
    }
}

proof fn lemma_plain_name(name: Seq<char>)
    requires
        name.len() > 1,
        forall|i: int| 0 <= i < name.len() ==> '.' <= #[trigger] name[i] <= 'z' && name[i] != '/',
    ensures
        has_no_slash(encode_utf8(name)),
        encode_utf8(name).len() == name.len(),
{
    assert forall|i: int| 0 <= i < name.len() implies '\0' <= #[trigger] name[i] <= '\u{7f}' by {
        assert('.' <= name[i] <= 'z');
    }
    assert(is_ascii_chars(name));
    vstd::utf8::is_ascii_chars_encode_utf8(name);
    assert forall|i: int| 0 <= i < encode_utf8(name).len() implies #[trigger] encode_utf8(name)[i]
        != 47 by {
        assert(encode_utf8(name)[i] == name[i] as u8);
        assert('.' <= name[i] <= 'z' && name[i] != '/');
    }
}

/// An entry lies in `entries` of its namespace under the hexadecimal text of its key, what is being
/// built lies in `staging`, and each output of an entry lies in `outputs` under its number.
pub proof fn lemma_places_in_namespace(namespace: Seq<u8>, key: Seq<u8>, root: Seq<u8>, index: nat)
    requires
        namespace.len() > 0,
        key.len() > 0,
        root.len() > 0,
    ensures
        components(entry_path(namespace, key)) == components(namespace).push(
            encode_utf8("entries"@),
        ).push(encode_utf8(hex(key))),
        components(staging_root_path(namespace)) == components(namespace).push(
            encode_utf8("staging"@),
        ),
        components(output_location(root, index)) == components(root).push(
            encode_utf8("outputs"@),
        ).push(encode_utf8(padded(index) + ".artifact"@)),
{
    reveal_strlit("entries");
    reveal_strlit("staging");
    reveal_strlit("outputs");
    reveal_strlit(".artifact");
    lemma_plain_name("entries"@);
    lemma_plain_name("staging"@);
    lemma_plain_name("outputs"@);
    lemma_joining(namespace, encode_utf8("entries"@));
    lemma_joining(namespace, encode_utf8("staging"@));
    lemma_joining(root, encode_utf8("outputs"@));
    lemma_hex_text(key);
    lemma_plain_name(hex(key));
    let entries = joined(namespace, encode_utf8("entries"@));
    lemma_joining(entries, encode_utf8(hex(key)));
    lemma_padded_digits(index);
    let file = padded(index) + ".artifact"@;
    assert forall|i: int| 0 <= i < file.len() implies '.' <= #[trigger] file[i] <= 'z' && file[i]
        != '/' by {
        if i < padded(index).len() {
            assert(is_digit(padded(index)[i]));
        } else {
            assert(file[i] == ".artifact"@[i - padded(index).len()]);
        }
    }
    lemma_plain_name(file);
    lemma_joining(joined(root, encode_utf8("outputs"@)), encode_utf8(file));
}

/// Each lock has a file of its own kind below the cache, named by what it guards.
pub proof fn lemma_places_of_locks(
    cache_root: Seq<u8>,
    scope: Seq<char>,
    key: Seq<char>,
    namespace: Seq<char>,
)
    ensures
        coordination_lock_file(cache_root, scope) == joined(
            joined(cache_root, encode_utf8(".ic-testkit/artifact-sets/locks/coordination"@)),
            encode_utf8(
                hex(
                    digest_of(
                        "artifact-cache-coordination-v1"@,
                        seq![(Field { label: "content"@, value: encode_utf8(scope) })],
                    ),
                ) + ".lock"@,
            ),
        ),
        content_lock_file(cache_root, key) == joined(
            joined(cache_root, encode_utf8(".ic-testkit/artifact-sets/locks/content"@)),
            encode_utf8(key + ".lock"@),
        ),
        namespace_lock_file(cache_root, namespace) == joined(
            joined(cache_root, encode_utf8(".ic-testkit/artifact-sets/locks/namespaces"@)),
            encode_utf8(
                hex(
                    digest_of(
                        "artifact-cache-namespace-v1"@,
                        seq![(Field { label: "content"@, value: encode_utf8(namespace) })],
                    ),
                ) + ".lock"@,
            ),
        ),
        namespace_path(cache_root, namespace) == joined(
            joined(cache_root, encode_utf8(".ic-testkit/artifact-sets/namespaces"@)),
            encode_utf8(
                hex(
                    digest_of(
                        "artifact-cache-namespace-v1"@,
                        seq![(Field { label: "content"@, value: encode_utf8(namespace) })],
                    ),
                ),
            ),
        ),
{
}

/// What is declared is read where it lies: every input below `input` and every tool below `tool`,
/// each under its own label, first the inputs, then the tools.
pub proof fn lemma_declared_paths_are_labeled(spec: ArtifactCacheSpecView)
    ensures
        declared_of(spec).len() == spec.inputs.len() + spec.tools.len(),
        forall|i: int|
            #![trigger spec.inputs[i]]
            0 <= i < spec.inputs.len() ==> declared_of(spec)[i].path == spec.inputs[i].path
                && declared_of(spec)[i].label == joined(
                encode_utf8("input"@),
                encode_utf8(spec.inputs[i].label),
            ),
        forall|i: int|
            #![trigger spec.tools[i]]
            0 <= i < spec.tools.len() ==> declared_of(spec)[spec.inputs.len() + i].path
                == spec.tools[i].path && declared_of(spec)[spec.inputs.len() + i].label == joined(
                encode_utf8("tool"@),
                encode_utf8(spec.tools[i].label),
            ),
{
}

} // verus!

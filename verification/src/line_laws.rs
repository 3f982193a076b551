//! What the texts say that are shown of timings, figures and failures.

use vstd::prelude::*;
use vstd::string::*;
use crate::digest::hex;
use crate::text::{decimal, lossy_text};
use crate::timing::{duration_text, optional_duration_text};
use crate::transaction::acquire::ArtifactCacheTimings;
use crate::transaction::error::{
    cache_error_text, invalid_outputs_text, ArtifactCacheError, InvalidOutputView,
};
use crate::transaction_batch::ArtifactCacheBatchMetrics;
use crate::wasm_batch::WasmBuildBatchMetrics;
use crate::wasm_cache::error::{error_text, paths_text, phase_text, WasmBuildError};
use crate::wasm_cache::progress::WasmBuildTimings;

verus! {

/// A figure under its name.
pub struct NamedFigure {
    /// Name of the figure.
    pub name: Seq<char>,
    /// The figure as text.
    pub figure: Seq<char>,
}

/// A line of figures: each behind its name and an equals sign, with spaces between them.
pub open spec fn figures_line(figures: Seq<NamedFigure>) -> Seq<char>
    decreases figures.len(),
{
    if figures.len() == 0 {
        seq![]
    } else if figures.len() == 1 {
        figures[0].name + seq!['='] + figures[0].figure
    } else {
        figures_line(figures.drop_last()) + seq![' '] + figures.last().name + seq!['=']
            + figures.last().figure
    }
}

/// A figure between round brackets.
pub open spec fn bracketed(figure: Seq<char>) -> Seq<char> {
    seq!['('] + figure + seq![')']
}

proof fn lemma_one_more(figures: Seq<NamedFigure>, one: NamedFigure, name: Seq<char>)
    requires
        figures.len() > 0,
        name == seq![' '] + one.name + seq!['='],
    ensures
        figures_line(figures.push(one)) == figures_line(figures) + name + one.figure,
{
    assert(figures.push(one).drop_last() =~= figures);
    assert(figures_line(figures.push(one)) =~= figures_line(figures) + name + one.figure);
}

/// The line of the timings of a build shows each figure behind its name.
pub proof fn lemma_line_of_build_timings(timings: WasmBuildTimings)
    ensures
        crate::wasm_cache::acquire::timings_text(timings) == figures_line(
            seq![
                NamedFigure { name: "total"@, figure: duration_text(timings.total@) },
                NamedFigure { name: "lock"@, figure: duration_text(timings.lock_wait@) },
                NamedFigure { name: "shared_lock"@, figure: optional_duration_text(timings.shared_incremental_lock_wait) },
                NamedFigure { name: "inputs"@, figure: duration_text(timings.input_resolution.total@) },
                NamedFigure { name: "cargo"@, figure: optional_duration_text(timings.cargo_build) },
                NamedFigure { name: "maintenance"@, figure: optional_duration_text(timings.cache_maintenance) },
            ],
        ),
{
    reveal_strlit("total");
    reveal_strlit("lock");
    reveal_strlit("shared_lock");
    reveal_strlit("inputs");
    reveal_strlit("cargo");
    reveal_strlit("maintenance");
    reveal_strlit("total=");
    reveal_strlit(" lock=");
    reveal_strlit(" shared_lock=");
    reveal_strlit(" inputs=");
    reveal_strlit(" cargo=");
    reveal_strlit(" maintenance=");
    let a0 = NamedFigure { name: "total"@, figure: duration_text(timings.total@) };
    let a1 = NamedFigure { name: "lock"@, figure: duration_text(timings.lock_wait@) };
    let a2 = NamedFigure { name: "shared_lock"@, figure: optional_duration_text(timings.shared_incremental_lock_wait) };
    let a3 = NamedFigure { name: "inputs"@, figure: duration_text(timings.input_resolution.total@) };
    let a4 = NamedFigure { name: "cargo"@, figure: optional_duration_text(timings.cargo_build) };
    let a5 = NamedFigure { name: "maintenance"@, figure: optional_duration_text(timings.cache_maintenance) };
    let l0 = seq![a0];
    assert("total="@ =~= "total"@ + seq!['=']);
    let t0 = "total="@ + duration_text(timings.total@);
    assert(t0 =~= figures_line(l0));
    let l1 = l0.push(a1);
    let n1 = seq![' '] + "lock"@ + seq!['='];
    lemma_one_more(l0, a1, n1);
    let t1 = t0 + " lock="@ + duration_text(timings.lock_wait@);
    assert(" lock="@ =~= n1);
    assert(t1 == figures_line(l1));
    let l2 = l1.push(a2);
    let n2 = seq![' '] + "shared_lock"@ + seq!['='];
    lemma_one_more(l1, a2, n2);
    let t2 = t1 + " shared_lock="@ + optional_duration_text(timings.shared_incremental_lock_wait);
    assert(" shared_lock="@ =~= n2);
    assert(t2 == figures_line(l2));
    let l3 = l2.push(a3);
    let n3 = seq![' '] + "inputs"@ + seq!['='];
    lemma_one_more(l2, a3, n3);
    let t3 = t2 + " inputs="@ + duration_text(timings.input_resolution.total@);
    assert(" inputs="@ =~= n3);
    assert(t3 == figures_line(l3));
    let l4 = l3.push(a4);
    let n4 = seq![' '] + "cargo"@ + seq!['='];
    lemma_one_more(l3, a4, n4);
    let t4 = t3 + " cargo="@ + optional_duration_text(timings.cargo_build);
    assert(" cargo="@ =~= n4);
    assert(t4 == figures_line(l4));
    let l5 = l4.push(a5);
    let n5 = seq![' '] + "maintenance"@ + seq!['='];
    lemma_one_more(l4, a5, n5);
    let t5 = t4 + " maintenance="@ + optional_duration_text(timings.cache_maintenance);
    assert(" maintenance="@ =~= n5);
    assert(t5 == figures_line(l5));
    assert(l5 =~= seq![a0, a1, a2, a3, a4, a5]);
}

/// The line of the timings of a transaction shows each figure behind its name.
pub proof fn lemma_line_of_transaction_timings(timings: ArtifactCacheTimings)
    ensures
        crate::transaction::acquire::timings_text(timings) == figures_line(
            seq![
                NamedFigure { name: "total"@, figure: duration_text(timings.total@) },
                NamedFigure { name: "coordination_lock"@, figure: duration_text(timings.coordination_lock_wait@) },
                NamedFigure { name: "content_lock"@, figure: duration_text(timings.content_lock_wait@) },
                NamedFigure { name: "namespace_lock"@, figure: duration_text(timings.namespace_lock_wait@) },
                NamedFigure { name: "inputs"@, figure: duration_text(timings.input_capture@) },
                NamedFigure { name: "lookup"@, figure: duration_text(timings.cache_lookup@) },
                NamedFigure { name: "build"@, figure: optional_duration_text(timings.caller_build) },
                NamedFigure { name: "validation"@, figure: duration_text(timings.output_validation@) },
                NamedFigure { name: "publication"@, figure: duration_text(timings.publication@) },
                NamedFigure { name: "materialization"@, figure: duration_text(timings.materialization@) },
                NamedFigure { name: "maintenance"@, figure: optional_duration_text(timings.maintenance) },
            ],
        ),
{
    reveal_strlit("total");
    reveal_strlit("coordination_lock");
    reveal_strlit("content_lock");
    reveal_strlit("namespace_lock");
    reveal_strlit("inputs");
    reveal_strlit("lookup");
    reveal_strlit("build");
    reveal_strlit("validation");
    reveal_strlit("publication");
    reveal_strlit("materialization");
    reveal_strlit("maintenance");
    reveal_strlit("total=");
    reveal_strlit(" coordination_lock=");
    reveal_strlit(" content_lock=");
    reveal_strlit(" namespace_lock=");
    reveal_strlit(" inputs=");
    reveal_strlit(" lookup=");
    reveal_strlit(" build=");
    reveal_strlit(" validation=");
    reveal_strlit(" publication=");
    reveal_strlit(" materialization=");
    reveal_strlit(" maintenance=");
    let a0 = NamedFigure { name: "total"@, figure: duration_text(timings.total@) };
    let a1 = NamedFigure { name: "coordination_lock"@, figure: duration_text(timings.coordination_lock_wait@) };
    let a2 = NamedFigure { name: "content_lock"@, figure: duration_text(timings.content_lock_wait@) };
    let a3 = NamedFigure { name: "namespace_lock"@, figure: duration_text(timings.namespace_lock_wait@) };
    let a4 = NamedFigure { name: "inputs"@, figure: duration_text(timings.input_capture@) };
    let a5 = NamedFigure { name: "lookup"@, figure: duration_text(timings.cache_lookup@) };
    let a6 = NamedFigure { name: "build"@, figure: optional_duration_text(timings.caller_build) };
    let a7 = NamedFigure { name: "validation"@, figure: duration_text(timings.output_validation@) };
    let a8 = NamedFigure { name: "publication"@, figure: duration_text(timings.publication@) };
    let a9 = NamedFigure { name: "materialization"@, figure: duration_text(timings.materialization@) };
    let a10 = NamedFigure { name: "maintenance"@, figure: optional_duration_text(timings.maintenance) };
    let l0 = seq![a0];
    assert("total="@ =~= "total"@ + seq!['=']);
    let t0 = "total="@ + duration_text(timings.total@);
    assert(t0 =~= figures_line(l0));
    let l1 = l0.push(a1);
    let n1 = seq![' '] + "coordination_lock"@ + seq!['='];
    lemma_one_more(l0, a1, n1);
    let t1 = t0 + " coordination_lock="@ + duration_text(timings.coordination_lock_wait@);
    assert(" coordination_lock="@ =~= n1);
    assert(t1 == figures_line(l1));
    let l2 = l1.push(a2);
    let n2 = seq![' '] + "content_lock"@ + seq!['='];
    lemma_one_more(l1, a2, n2);
    let t2 = t1 + " content_lock="@ + duration_text(timings.content_lock_wait@);
    assert(" content_lock="@ =~= n2);
    assert(t2 == figures_line(l2));
    let l3 = l2.push(a3);
    let n3 = seq![' '] + "namespace_lock"@ + seq!['='];
    lemma_one_more(l2, a3, n3);
    let t3 = t2 + " namespace_lock="@ + duration_text(timings.namespace_lock_wait@);
    assert(" namespace_lock="@ =~= n3);
    assert(t3 == figures_line(l3));
    let l4 = l3.push(a4);
    let n4 = seq![' '] + "inputs"@ + seq!['='];
    lemma_one_more(l3, a4, n4);
    let t4 = t3 + " inputs="@ + duration_text(timings.input_capture@);
    assert(" inputs="@ =~= n4);
    assert(t4 == figures_line(l4));
    let l5 = l4.push(a5);
    let n5 = seq![' '] + "lookup"@ + seq!['='];
    lemma_one_more(l4, a5, n5);
    let t5 = t4 + " lookup="@ + duration_text(timings.cache_lookup@);
    assert(" lookup="@ =~= n5);
    assert(t5 == figures_line(l5));
    let l6 = l5.push(a6);
    let n6 = seq![' '] + "build"@ + seq!['='];
    lemma_one_more(l5, a6, n6);
    let t6 = t5 + " build="@ + optional_duration_text(timings.caller_build);
    assert(" build="@ =~= n6);
    assert(t6 == figures_line(l6));
    let l7 = l6.push(a7);
    let n7 = seq![' '] + "validation"@ + seq!['='];
    lemma_one_more(l6, a7, n7);
    let t7 = t6 + " validation="@ + duration_text(timings.output_validation@);
    assert(" validation="@ =~= n7);
    assert(t7 == figures_line(l7));
    let l8 = l7.push(a8);
    let n8 = seq![' '] + "publication"@ + seq!['='];
    lemma_one_more(l7, a8, n8);
    let t8 = t7 + " publication="@ + duration_text(timings.publication@);
    assert(" publication="@ =~= n8);
    assert(t8 == figures_line(l8));
    let l9 = l8.push(a9);
    let n9 = seq![' '] + "materialization"@ + seq!['='];
    lemma_one_more(l8, a9, n9);
    let t9 = t8 + " materialization="@ + duration_text(timings.materialization@);
    assert(" materialization="@ =~= n9);
    assert(t9 == figures_line(l9));
    let l10 = l9.push(a10);
    let n10 = seq![' '] + "maintenance"@ + seq!['='];
    lemma_one_more(l9, a10, n10);
    let t10 = t9 + " maintenance="@ + optional_duration_text(timings.maintenance);
    assert(" maintenance="@ =~= n10);
    assert(t10 == figures_line(l10));
    assert(l10 =~= seq![a0, a1, a2, a3, a4, a5, a6, a7, a8, a9, a10]);
}

/// The line of the figures of a batch of builds shows each figure behind its name.
pub proof fn lemma_line_of_build_figures(metrics: WasmBuildBatchMetrics)
    ensures
        crate::wasm_batch::metrics_text(metrics) == figures_line(
            seq![
                NamedFigure { name: "builds"@, figure: decimal(metrics.specifications as nat) },
                NamedFigure { name: "succeeded"@, figure: decimal(metrics.succeeded as nat) },
                NamedFigure { name: "failed"@, figure: decimal(metrics.failed as nat) },
                NamedFigure { name: "built"@, figure: decimal(metrics.built as nat) },
                NamedFigure { name: "reused"@, figure: decimal(metrics.reused as nat) },
                NamedFigure { name: "input_resolution_runs"@, figure: decimal(metrics.input_resolution.runs as nat) },
                NamedFigure { name: "input_resolution_reuses"@, figure: decimal(metrics.input_resolution.reuses as nat) },
                NamedFigure { name: "successful_timings"@, figure: bracketed(crate::wasm_cache::acquire::timings_text(metrics.successful_timings)) },
                NamedFigure { name: "total"@, figure: duration_text(metrics.total@) },
            ],
        ),
{
    reveal_strlit("builds");
    reveal_strlit("succeeded");
    reveal_strlit("failed");
    reveal_strlit("built");
    reveal_strlit("reused");
    reveal_strlit("input_resolution_runs");
    reveal_strlit("input_resolution_reuses");
    reveal_strlit("successful_timings");
    reveal_strlit("total");
    reveal_strlit("builds=");
    reveal_strlit(" succeeded=");
    reveal_strlit(" failed=");
    reveal_strlit(" built=");
    reveal_strlit(" reused=");
    reveal_strlit(" input_resolution_runs=");
    reveal_strlit(" input_resolution_reuses=");
    reveal_strlit(" successful_timings=(");
    reveal_strlit(") total=");
    let a0 = NamedFigure { name: "builds"@, figure: decimal(metrics.specifications as nat) };
    let a1 = NamedFigure { name: "succeeded"@, figure: decimal(metrics.succeeded as nat) };
    let a2 = NamedFigure { name: "failed"@, figure: decimal(metrics.failed as nat) };
    let a3 = NamedFigure { name: "built"@, figure: decimal(metrics.built as nat) };
    let a4 = NamedFigure { name: "reused"@, figure: decimal(metrics.reused as nat) };
    let a5 = NamedFigure { name: "input_resolution_runs"@, figure: decimal(metrics.input_resolution.runs as nat) };
    let a6 = NamedFigure { name: "input_resolution_reuses"@, figure: decimal(metrics.input_resolution.reuses as nat) };
    let a7 = NamedFigure { name: "successful_timings"@, figure: bracketed(crate::wasm_cache::acquire::timings_text(metrics.successful_timings)) };
    let a8 = NamedFigure { name: "total"@, figure: duration_text(metrics.total@) };
    let l0 = seq![a0];
    assert("builds="@ =~= "builds"@ + seq!['=']);
    let t0 = "builds="@ + decimal(metrics.specifications as nat);
    assert(t0 =~= figures_line(l0));
    let l1 = l0.push(a1);
    let n1 = seq![' '] + "succeeded"@ + seq!['='];
    lemma_one_more(l0, a1, n1);
    let t1 = t0 + " succeeded="@ + decimal(metrics.succeeded as nat);
    assert(" succeeded="@ =~= n1);
    assert(t1 == figures_line(l1));
    let l2 = l1.push(a2);
    let n2 = seq![' '] + "failed"@ + seq!['='];
    lemma_one_more(l1, a2, n2);
    let t2 = t1 + " failed="@ + decimal(metrics.failed as nat);
    assert(" failed="@ =~= n2);
    assert(t2 == figures_line(l2));
    let l3 = l2.push(a3);
    let n3 = seq![' '] + "built"@ + seq!['='];
    lemma_one_more(l2, a3, n3);
    let t3 = t2 + " built="@ + decimal(metrics.built as nat);
    assert(" built="@ =~= n3);
    assert(t3 == figures_line(l3));
    let l4 = l3.push(a4);
    let n4 = seq![' '] + "reused"@ + seq!['='];
    lemma_one_more(l3, a4, n4);
    let t4 = t3 + " reused="@ + decimal(metrics.reused as nat);
    assert(" reused="@ =~= n4);
    assert(t4 == figures_line(l4));
    let l5 = l4.push(a5);
    let n5 = seq![' '] + "input_resolution_runs"@ + seq!['='];
    lemma_one_more(l4, a5, n5);
    let t5 = t4 + " input_resolution_runs="@ + decimal(metrics.input_resolution.runs as nat);
    assert(" input_resolution_runs="@ =~= n5);
    assert(t5 == figures_line(l5));
    let l6 = l5.push(a6);
    let n6 = seq![' '] + "input_resolution_reuses"@ + seq!['='];
    lemma_one_more(l5, a6, n6);
    let t6 = t5 + " input_resolution_reuses="@ + decimal(metrics.input_resolution.reuses as nat);
    assert(" input_resolution_reuses="@ =~= n6);
    assert(t6 == figures_line(l6));
    let l7 = l6.push(a7);
    let n7 = seq![' '] + "successful_timings"@ + seq!['='];
    lemma_one_more(l6, a7, n7);
    let t7 = t6 + " successful_timings=("@ + crate::wasm_cache::acquire::timings_text(metrics.successful_timings);
    assert(" successful_timings=("@ =~= n7 + seq!['(']);
    assert(t7 + seq![')'] =~= figures_line(l7));
    let l8 = l7.push(a8);
    let n8 = seq![' '] + "total"@ + seq!['='];
    lemma_one_more(l7, a8, n8);
    let t8 = t7 + ") total="@ + duration_text(metrics.total@);
    assert(") total="@ =~= seq![')'] + n8);
    assert(t8 =~= figures_line(l8));
    assert(l8 =~= seq![a0, a1, a2, a3, a4, a5, a6, a7, a8]);
}

/// The line of the figures of a batch of transactions shows each figure behind its name.
pub proof fn lemma_line_of_transaction_figures(metrics: ArtifactCacheBatchMetrics)
    ensures
        crate::transaction_batch::metrics_text(metrics) == figures_line(
            seq![
                NamedFigure { name: "entries"@, figure: decimal(metrics.entries as nat) },
                NamedFigure { name: "succeeded"@, figure: decimal(metrics.succeeded as nat) },
                NamedFigure { name: "failed"@, figure: decimal(metrics.failed as nat) },
                NamedFigure { name: "built"@, figure: decimal(metrics.built as nat) },
                NamedFigure { name: "reused"@, figure: decimal(metrics.reused as nat) },
                NamedFigure { name: "successful_timings"@, figure: bracketed(crate::transaction::acquire::timings_text(metrics.successful_timings)) },
                NamedFigure { name: "total"@, figure: duration_text(metrics.total@) },
            ],
        ),
{
    reveal_strlit("entries");
    reveal_strlit("succeeded");
    reveal_strlit("failed");
    reveal_strlit("built");
    reveal_strlit("reused");
    reveal_strlit("successful_timings");
    reveal_strlit("total");
    reveal_strlit("entries=");
    reveal_strlit(" succeeded=");
    reveal_strlit(" failed=");
    reveal_strlit(" built=");
    reveal_strlit(" reused=");
    reveal_strlit(" successful_timings=(");
    reveal_strlit(") total=");
    let a0 = NamedFigure { name: "entries"@, figure: decimal(metrics.entries as nat) };
    let a1 = NamedFigure { name: "succeeded"@, figure: decimal(metrics.succeeded as nat) };
    let a2 = NamedFigure { name: "failed"@, figure: decimal(metrics.failed as nat) };
    let a3 = NamedFigure { name: "built"@, figure: decimal(metrics.built as nat) };
    let a4 = NamedFigure { name: "reused"@, figure: decimal(metrics.reused as nat) };
    let a5 = NamedFigure { name: "successful_timings"@, figure: bracketed(crate::transaction::acquire::timings_text(metrics.successful_timings)) };
    let a6 = NamedFigure { name: "total"@, figure: duration_text(metrics.total@) };
    let l0 = seq![a0];
    assert("entries="@ =~= "entries"@ + seq!['=']);
    let t0 = "entries="@ + decimal(metrics.entries as nat);
    assert(t0 =~= figures_line(l0));
    let l1 = l0.push(a1);
    let n1 = seq![' '] + "succeeded"@ + seq!['='];
    lemma_one_more(l0, a1, n1);
    let t1 = t0 + " succeeded="@ + decimal(metrics.succeeded as nat);
    assert(" succeeded="@ =~= n1);
    assert(t1 == figures_line(l1));
    let l2 = l1.push(a2);
    let n2 = seq![' '] + "failed"@ + seq!['='];
    lemma_one_more(l1, a2, n2);
    let t2 = t1 + " failed="@ + decimal(metrics.failed as nat);
    assert(" failed="@ =~= n2);
    assert(t2 == figures_line(l2));
    let l3 = l2.push(a3);
    let n3 = seq![' '] + "built"@ + seq!['='];
    lemma_one_more(l2, a3, n3);
    let t3 = t2 + " built="@ + decimal(metrics.built as nat);
    assert(" built="@ =~= n3);
    assert(t3 == figures_line(l3));
    let l4 = l3.push(a4);
    let n4 = seq![' '] + "reused"@ + seq!['='];
    lemma_one_more(l3, a4, n4);
    let t4 = t3 + " reused="@ + decimal(metrics.reused as nat);
    assert(" reused="@ =~= n4);
    assert(t4 == figures_line(l4));
    let l5 = l4.push(a5);
    let n5 = seq![' '] + "successful_timings"@ + seq!['='];
    lemma_one_more(l4, a5, n5);
    let t5 = t4 + " successful_timings=("@ + crate::transaction::acquire::timings_text(metrics.successful_timings);
    assert(" successful_timings=("@ =~= n5 + seq!['(']);
    assert(t5 + seq![')'] =~= figures_line(l5));
    let l6 = l5.push(a6);
    let n6 = seq![' '] + "total"@ + seq!['='];
    lemma_one_more(l5, a6, n6);
    let t6 = t5 + ") total="@ + duration_text(metrics.total@);
    assert(") total="@ =~= seq![')'] + n6);
    assert(t6 =~= figures_line(l6));
    assert(l6 =~= seq![a0, a1, a2, a3, a4, a5, a6]);
}

/// Whether a text ends in another.
pub open spec fn ends_in(text: Seq<char>, tail: Seq<char>) -> bool {
    tail.len() <= text.len() && text.skip(text.len() - tail.len()) == tail
}

proof fn lemma_ends_in(head: Seq<char>, tail: Seq<char>)
    ensures
        ends_in(head + tail, tail),
{
    assert((head + tail).skip(head.len() as int) =~= tail);
}

/// Where inputs changed, the text ends in what they were and what they became, in this order.
pub proof fn lemma_changes_are_told(cache_error: ArtifactCacheError, build_error: WasmBuildError)
    ensures
        cache_error matches ArtifactCacheError::InputsChangedDuringPreparation { before, after }
            ==> ends_in(cache_error_text(cache_error), hex(before@) + " -> "@ + hex(after@)),
        cache_error matches ArtifactCacheError::InputsChangedDuringBuild { before, after }
            ==> ends_in(cache_error_text(cache_error), hex(before@) + " -> "@ + hex(after@)),
        cache_error matches ArtifactCacheError::CargoBuildInputsChanged { label, before, after }
            ==> ends_in(
            cache_error_text(cache_error),
            "`"@ + label@ + "` changed: "@ + hex(before@) + " -> "@ + hex(after@),
        ),
        build_error matches WasmBuildError::InputsChangedDuringBuild { before, after } ==> ends_in(
            error_text(build_error),
            hex(before@) + " -> "@ + hex(after@),
        ),
{
    match cache_error {
        ArtifactCacheError::InputsChangedDuringPreparation { before, after } => {
            let head = "artifact inputs repeatedly changed during cache preparation: "@;
            let tail = hex(before@) + " -> "@ + hex(after@);
            lemma_ends_in(head, tail);
            assert(cache_error_text(cache_error) =~= head + tail);
        },
        ArtifactCacheError::InputsChangedDuringBuild { before, after } => {
            let head = "artifact inputs changed while the caller was building: "@;
            let tail = hex(before@) + " -> "@ + hex(after@);
            lemma_ends_in(head, tail);
            assert(cache_error_text(cache_error) =~= head + tail);
        },
        ArtifactCacheError::CargoBuildInputsChanged { label, before, after } => {
            reveal_strlit("resolved Cargo build inputs `");
            reveal_strlit("resolved Cargo build inputs ");
            reveal_strlit("`");
            let head = "resolved Cargo build inputs "@;
            let tail = "`"@ + label@ + "` changed: "@ + hex(before@) + " -> "@ + hex(after@);
            assert("resolved Cargo build inputs `"@ =~= head + "`"@);
            lemma_ends_in(head, tail);
            assert(cache_error_text(cache_error) =~= head + tail);
        },
        _ => {},
    }
    if let WasmBuildError::InputsChangedDuringBuild { before, after } = build_error {
        let head = "Wasm build inputs changed while Cargo was running: "@;
        let tail = hex(before@) + " -> "@ + hex(after@);
        lemma_ends_in(head, tail);
        assert(error_text(build_error) =~= head + tail);
    }
}

/// Where something failed at a path, the text tells what was tried, where and why.
pub proof fn lemma_failures_are_told(cache_error: ArtifactCacheError, build_error: WasmBuildError)
    ensures
        cache_error matches ArtifactCacheError::Io { operation, path, source } ==> cache_error_text(
            cache_error,
        ) == "failed to "@ + operation@ + " at "@ + lossy_text(path@) + ": "@ + source@,
        build_error matches WasmBuildError::Io { operation, path, source } ==> error_text(
            build_error,
        ) == "failed to "@ + operation@ + " at "@ + lossy_text(path@) + ": "@ + source@,
        build_error matches WasmBuildError::CommandFailed { phase, status, stdout, stderr }
            ==> ends_in(
            error_text(build_error),
            "\nstdout:\n"@ + stdout@ + "\nstderr:\n"@ + stderr@,
        ),
{
    if let WasmBuildError::CommandFailed { phase, status, stdout, stderr } = build_error {
        let head = phase_text(phase) + " failed with "@ + status.text@;
        let tail = "\nstdout:\n"@ + stdout@ + "\nstderr:\n"@ + stderr@;
        lemma_ends_in(head, tail);
        assert(error_text(build_error) =~= head + tail);
    }
}

/// Every path of a list is told, in order, with commas between them, and so is every invalid output
/// with its name and its path.
pub proof fn lemma_lists_are_told(
    paths: Seq<Seq<u8>>,
    path: Seq<u8>,
    outputs: Seq<InvalidOutputView>,
    output: InvalidOutputView,
)
    ensures
        paths_text(seq![path]) == lossy_text(path),
        paths.len() > 0 ==> paths_text(paths.push(path)) == paths_text(paths) + ", "@ + lossy_text(
            path,
        ),
        invalid_outputs_text(seq![output]) == output.name + " ("@ + lossy_text(output.path) + ")"@,
        outputs.len() > 0 ==> invalid_outputs_text(outputs.push(output)) == invalid_outputs_text(
            outputs,
        ) + ", "@ + (output.name + " ("@ + lossy_text(output.path) + ")"@),
{
    assert(paths.push(path).drop_last() =~= paths);
    assert(outputs.push(output).drop_last() =~= outputs);
}

} // verus!

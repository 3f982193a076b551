//! Laws of batches: which labels are refused, what is counted, and how times add up.

use vstd::prelude::*;
use crate::batch::{first_fault, first_position, is_fresh, positions};
use crate::numbers::plain_sum;
use crate::timing::{optional_sum, saturating_sum, Duration};
use crate::transaction::acquire::{is_sum, ArtifactCacheOutcome, ArtifactCacheTimings};
use crate::transaction_batch::ArtifactCacheBatchFailure;
use crate::wasm_batch::{
    first_unprepared, maintained_positions, LabeledWasmBuildSpec, WasmBuildBatchEntry,
};
use crate::wasm_cache::acquire::WasmBuildOutcome;
use crate::wasm_cache::error::WasmBuildError;
use crate::wasm_cache::progress::{timings_sum, WasmBuildTimings};
use crate::wasm_cache::session::{snapshot_index, WasmBuildInputSnapshotState};

verus! {

proof fn lemma_first_position_is_first(labels: Seq<Seq<char>>, label: Seq<char>, upto: int)
    requires
        upto <= labels.len(),
    ensures
        match first_position(labels, label, upto) {
            Some(at) => {
                &&& 0 <= at < upto
                &&& labels[at] == label
                &&& forall|i: int| 0 <= i < at ==> #[trigger] labels[i] != label
            },
            None => forall|i: int| 0 <= i < upto ==> #[trigger] labels[i] != label,
        },
    decreases upto,
{
    if upto > 0 {
        lemma_first_position_is_first(labels, label, upto - 1);
    }
}

proof fn lemma_first_fault_from(labels: Seq<Seq<char>>, from: int)
    requires
        0 <= from,
    ensures
        match first_fault(labels, from) {
            Some(at) => from <= at < labels.len() && !is_fresh(labels, at) && forall|i: int|
                from <= i < at ==> #[trigger] is_fresh(labels, i),
            None => forall|i: int| from <= i < labels.len() ==> #[trigger] is_fresh(labels, i),
        },
    decreases labels.len() - from,
{
    if from < labels.len() {
        lemma_first_fault_from(labels, from + 1);
    }
}

/// Whether a label is empty or repeats an earlier one.
pub open spec fn is_refused(labels: Seq<Seq<char>>, at: int) -> bool {
    labels[at].len() == 0 || exists|i: int| 0 <= i < at && #[trigger] labels[i] == labels[at]
}

/// Labels are refused exactly when one is empty or repeats an earlier one; the first such label is
/// named, together with the first occurrence of what it repeats.
pub proof fn lemma_refused_labels(labels: Seq<Seq<char>>)
    ensures
        first_fault(labels, 0) is None <==> forall|i: int|
            0 <= i < labels.len() ==> !#[trigger] is_refused(labels, i),
        first_fault(labels, 0) matches Some(at) ==> {
            &&& 0 <= at < labels.len()
            &&& is_refused(labels, at)
            &&& forall|i: int| 0 <= i < at ==> !#[trigger] is_refused(labels, i)
            &&& labels[at].len() > 0 ==> (first_position(labels, labels[at], at) matches Some(
                first,
            ) && 0 <= first < at && labels[first] == labels[at] && forall|i: int|
                0 <= i < first ==> #[trigger] labels[i] != labels[at])
        },
{
    lemma_first_fault_from(labels, 0);
    assert forall|i: int| 0 <= i < labels.len() implies #[trigger] is_refused(labels, i)
        == !is_fresh(labels, i) by {
        lemma_first_position_is_first(labels, labels[i], i);
    }
    if first_fault(labels, 0) is Some {
        let at = first_fault(labels, 0)->0;
        lemma_first_position_is_first(labels, labels[at], at);
        assert(is_refused(labels, at));
        assert forall|i: int| 0 <= i < at implies !#[trigger] is_refused(labels, i) by {
            assert(is_fresh(labels, i));
        }
    } else {
        assert forall|i: int| 0 <= i < labels.len() implies !#[trigger] is_refused(labels, i) by {
            assert(is_fresh(labels, i));
        }
    }
}

/// The successes of a batch are listed by place, each once and in order, and so are its failures.
pub proof fn lemma_results_keep_their_order<T, E>(
    results: Seq<Result<T, E>>,
    successes: bool,
    upto: int,
)
    requires
        0 <= upto <= results.len(),
    ensures
        forall|i: int, j: int|
            #![trigger positions(results, successes, upto)[i], positions(results, successes, upto)[j]]
            0 <= i < j < positions(results, successes, upto).len() ==> positions(
                results,
                successes,
                upto,
            )[i] < positions(results, successes, upto)[j],
        forall|at: int|
            positions(results, successes, upto).contains(at) <==> 0 <= at < upto && (
            #[trigger] results[at] is Ok <==> successes),
        positions(results, successes, upto).len() == results.take(upto).filter(
            |result: Result<T, E>| result is Ok <==> successes,
        ).len(),
    decreases upto,
{
    reveal(Seq::filter);
    if upto > 0 {
        lemma_results_keep_their_order(results, successes, upto - 1);
        let before = positions(results, successes, upto - 1);
        let found = positions(results, successes, upto);
        assert(results.take(upto).drop_last() =~= results.take(upto - 1));
        assert(results.take(upto).last() == results[upto - 1]);
        assert forall|at: int| found.contains(at) <==> 0 <= at < upto && (#[trigger] results[at]
            is Ok <==> successes) by {
            if results[upto - 1] is Ok == successes {
                assert(found =~= before.push(upto - 1));
                assert(found[before.len() as int] == upto - 1);
                if before.contains(at) {
                    let place = choose|place: int|
                        0 <= place < before.len() && before[place] == at;
                    assert(found[place] == at);
                }
                if found.contains(at) && at != upto - 1 {
                    let place = choose|place: int| 0 <= place < found.len() && found[place] == at;
                    assert(before[place] == at);
                    assert(before.contains(at));
                }
            }
        }
        if results[upto - 1] is Ok == successes {
            assert forall|i: int, j: int| #![trigger found[i], found[j]] 0 <= i < j < found.len() implies found[i]
                < found[j] by {
                if j == before.len() {
                    assert(before.contains(before[i]));
                    assert(found[i] == before[i]);
                    assert(results[before[i]] is Ok == successes);
                } else {
                    assert(before[i] < before[j]);
                }
            }
        }
    }
}

/// Numbers of nanoseconds as integers.
pub open spec fn parts<T>(timings: Seq<T>, part: spec_fn(T) -> nat) -> Seq<int> {
    timings.map_values(|one: T| part(one) as int)
}

/// An optional span in nanoseconds, none counting as nothing.
pub open spec fn known(span: Option<Duration>) -> nat {
    match span {
        Some(found) => found@,
        None => 0,
    }
}

/// Whether a number is a sum, or the longest span where the sum is longer.
pub open spec fn is_capped(total: nat, values: Seq<int>) -> bool {
    total == if plain_sum(values) <= 18_446_744_073_709_551_615_999_999_999 {
        plain_sum(values)
    } else {
        18_446_744_073_709_551_615_999_999_999
    }
}

/// Whether an optional span is known exactly when one of some spans is, and is the sum of those
/// that are, as far as that can be written down.
pub open spec fn is_known_total<T>(
    total: Option<Duration>,
    timings: Seq<T>,
    part: spec_fn(T) -> Option<Duration>,
) -> bool {
    let values = parts(timings, |one: T| known(part(one)));
    &&& total is None <==> forall|i: int| 0 <= i < timings.len() ==> part(#[trigger] timings[i]) is None
    &&& plain_sum(values) <= 18_446_744_073_709_551_615_999_999_999 ==> known(total) == plain_sum(
        values,
    )
}

proof fn lemma_parts_push<T>(timings: Seq<T>, one: T, part: spec_fn(T) -> nat)
    ensures
        plain_sum(parts(timings.push(one), part)) == plain_sum(parts(timings, part)) + part(one),
{
    let longer = parts(timings.push(one), part);
    assert(longer.drop_last() =~= parts(timings, part));
    assert(longer.last() == part(one));
}

proof fn lemma_capped_push<T>(
    before: nat,
    total: nat,
    timings: Seq<T>,
    one: T,
    part: spec_fn(T) -> nat,
)
    requires
        is_capped(before, parts(timings, part)),
        total == saturating_sum(before, part(one)),
    ensures
        is_capped(total, parts(timings.push(one), part)),
{
    lemma_parts_push(timings, one, part);
}

proof fn lemma_known_push<T>(
    before: Option<Duration>,
    total: Option<Duration>,
    timings: Seq<T>,
    one: T,
    part: spec_fn(T) -> Option<Duration>,
)
    requires
        is_known_total(before, timings, part),
        optional_sum(before, part(one), total),
    ensures
        is_known_total(total, timings.push(one), part),
{
    lemma_parts_push(timings, one, |each: T| known(part(each)));
    let longer = timings.push(one);
    assert(longer[timings.len() as int] == one);
    assert forall|i: int| 0 <= i < timings.len() implies #[trigger] timings[i] == longer[i] by {}
    if total is None {
        assert forall|i: int| 0 <= i < longer.len() implies part(#[trigger] longer[i]) is None by {
            if i < timings.len() {
                assert(part(timings[i]) is None);
            }
        }
    } else if before is Some {
        let at = choose|i: int| 0 <= i < timings.len() && !(part(#[trigger] timings[i]) is None);
        assert(part(longer[at]) is Some);
    } else {
        assert(part(longer[timings.len() as int]) is Some);
    }
}

proof fn lemma_nothing_is_capped<T>(part: spec_fn(T) -> nat)
    ensures
        is_capped(0, parts(Seq::<T>::empty(), part)),
{
    assert(parts(Seq::<T>::empty(), part) =~= Seq::<int>::empty());
}

proof fn lemma_nothing_is_known<T>(part: spec_fn(T) -> Option<Duration>)
    ensures
        is_known_total(None, Seq::<T>::empty(), part),
{
    assert(parts(Seq::<T>::empty(), |one: T| known(part(one))) =~= Seq::<int>::empty());
}

/// The timings of the builds that succeeded, in order.
pub open spec fn build_timings(results: Seq<Result<WasmBuildOutcome, WasmBuildError>>) -> Seq<
    WasmBuildTimings,
> {
    results.filter(|result: Result<WasmBuildOutcome, WasmBuildError>| result is Ok).map_values(
        |result: Result<WasmBuildOutcome, WasmBuildError>|
            match result->Ok_0 {
                WasmBuildOutcome::Built(record) => record.timings,
                WasmBuildOutcome::Reused(record) => record.timings,
            },
    )
}

/// Whether timings are the totals of other timings, phase by phase.
pub open spec fn are_build_totals(total: WasmBuildTimings, each: Seq<WasmBuildTimings>) -> bool {
    &&& is_capped(total.lock_wait@, parts(each, |one: WasmBuildTimings| one.lock_wait@))
    &&& is_known_total(
        total.shared_incremental_lock_wait,
        each,
        |one: WasmBuildTimings| one.shared_incremental_lock_wait,
    )
    &&& is_capped(
        total.input_resolution.tool_identity@,
        parts(each, |one: WasmBuildTimings| one.input_resolution.tool_identity@),
    )
    &&& is_capped(
        total.input_resolution.cargo_metadata@,
        parts(each, |one: WasmBuildTimings| one.input_resolution.cargo_metadata@),
    )
    &&& is_capped(
        total.input_resolution.input_discovery@,
        parts(each, |one: WasmBuildTimings| one.input_resolution.input_discovery@),
    )
    &&& is_capped(
        total.input_resolution.content_hashing@,
        parts(each, |one: WasmBuildTimings| one.input_resolution.content_hashing@),
    )
    &&& is_capped(
        total.input_resolution.total@,
        parts(each, |one: WasmBuildTimings| one.input_resolution.total@),
    )
    &&& is_known_total(total.cargo_build, each, |one: WasmBuildTimings| one.cargo_build)
    &&& is_known_total(total.cache_maintenance, each, |one: WasmBuildTimings| one.cache_maintenance)
    &&& is_capped(total.total@, parts(each, |one: WasmBuildTimings| one.total@))
}

proof fn lemma_build_totals_push(
    before: WasmBuildTimings,
    one: WasmBuildTimings,
    total: WasmBuildTimings,
    each: Seq<WasmBuildTimings>,
)
    requires
        are_build_totals(before, each),
        timings_sum(before, one, total),
    ensures
        are_build_totals(total, each.push(one)),
{
    lemma_capped_push(
        before.lock_wait@,
        total.lock_wait@,
        each,
        one,
        |one: WasmBuildTimings| one.lock_wait@,
    );
    lemma_known_push(
        before.shared_incremental_lock_wait,
        total.shared_incremental_lock_wait,
        each,
        one,
        |one: WasmBuildTimings| one.shared_incremental_lock_wait,
    );
    lemma_capped_push(
        before.input_resolution.tool_identity@,
        total.input_resolution.tool_identity@,
        each,
        one,
        |one: WasmBuildTimings| one.input_resolution.tool_identity@,
    );
    lemma_capped_push(
        before.input_resolution.cargo_metadata@,
        total.input_resolution.cargo_metadata@,
        each,
        one,
        |one: WasmBuildTimings| one.input_resolution.cargo_metadata@,
    );
    lemma_capped_push(
        before.input_resolution.input_discovery@,
        total.input_resolution.input_discovery@,
        each,
        one,
        |one: WasmBuildTimings| one.input_resolution.input_discovery@,
    );
    lemma_capped_push(
        before.input_resolution.content_hashing@,
        total.input_resolution.content_hashing@,
        each,
        one,
        |one: WasmBuildTimings| one.input_resolution.content_hashing@,
    );
    lemma_capped_push(
        before.input_resolution.total@,
        total.input_resolution.total@,
        each,
        one,
        |one: WasmBuildTimings| one.input_resolution.total@,
    );
    lemma_known_push(
        before.cargo_build,
        total.cargo_build,
        each,
        one,
        |one: WasmBuildTimings| one.cargo_build,
    );
    lemma_known_push(
        before.cache_maintenance,
        total.cache_maintenance,
        each,
        one,
        |one: WasmBuildTimings| one.cache_maintenance,
    );
    lemma_capped_push(
        before.total@,
        total.total@,
        each,
        one,
        |one: WasmBuildTimings| one.total@,
    );
}

proof fn lemma_no_build_totals(total: WasmBuildTimings)
    requires
        crate::wasm_cache::progress::is_zero_timings(total),
    ensures
        are_build_totals(total, seq![]),
{
    lemma_nothing_is_capped(|one: WasmBuildTimings| one.lock_wait@);
    lemma_nothing_is_known(|one: WasmBuildTimings| one.shared_incremental_lock_wait);
    lemma_nothing_is_capped(|one: WasmBuildTimings| one.input_resolution.tool_identity@);
    lemma_nothing_is_capped(|one: WasmBuildTimings| one.input_resolution.cargo_metadata@);
    lemma_nothing_is_capped(|one: WasmBuildTimings| one.input_resolution.input_discovery@);
    lemma_nothing_is_capped(|one: WasmBuildTimings| one.input_resolution.content_hashing@);
    lemma_nothing_is_capped(|one: WasmBuildTimings| one.input_resolution.total@);
    lemma_nothing_is_known(|one: WasmBuildTimings| one.cargo_build);
    lemma_nothing_is_known(|one: WasmBuildTimings| one.cache_maintenance);
    lemma_nothing_is_capped(|one: WasmBuildTimings| one.total@);
}

/// The times of the successful builds of a batch add up, phase by phase, and its reused builds are
/// counted one by one.
pub proof fn lemma_build_times_add_up(
    results: Seq<Result<WasmBuildOutcome, WasmBuildError>>,
    upto: int,
    total: WasmBuildTimings,
)
    requires
        0 <= upto <= results.len(),
        crate::wasm_batch::is_timing_total(results, upto, total),
    ensures
        are_build_totals(total, build_timings(results.take(upto))),
        crate::wasm_batch::reused_count(results, upto) == results.take(upto).filter(
            |result: Result<WasmBuildOutcome, WasmBuildError>|
                result matches Ok(outcome) && outcome is Reused,
        ).len(),
    decreases upto,
{
    reveal(Seq::filter);
    let chosen = results.take(upto);
    if upto == 0 {
        lemma_no_build_totals(total);
        assert(build_timings(chosen) =~= seq![]);
    } else {
        let shorter = results.take(upto - 1);
        assert(chosen.drop_last() =~= shorter);
        assert(chosen.last() == results[upto - 1]);
        match results[upto - 1] {
            Err(_) => {
                lemma_build_times_add_up(results, upto - 1, total);
                assert(build_timings(chosen) =~= build_timings(shorter));
            },
            Ok(outcome) => {
                let one = crate::wasm_cache::acquire::outcome_record(outcome).timings;
                let before = choose|before: WasmBuildTimings|
                    crate::wasm_batch::is_timing_total(results, upto - 1, before)
                        && #[trigger] timings_sum(before, one, total);
                lemma_build_times_add_up(results, upto - 1, before);
                lemma_build_totals_push(before, one, total, build_timings(shorter));
                assert(build_timings(chosen) =~= build_timings(shorter).push(one));
            },
        }
    }
}

/// The timings of the transactions that succeeded, in order.
pub open spec fn transaction_timings<E>(
    results: Seq<Result<ArtifactCacheOutcome, ArtifactCacheBatchFailure<E>>>,
) -> Seq<ArtifactCacheTimings> {
    results.filter(
        |result: Result<ArtifactCacheOutcome, ArtifactCacheBatchFailure<E>>| result is Ok,
    ).map_values(
        |result: Result<ArtifactCacheOutcome, ArtifactCacheBatchFailure<E>>|
            match result->Ok_0 {
                ArtifactCacheOutcome::Built(record) => record.timings,
                ArtifactCacheOutcome::Reused(record) => record.timings,
            },
    )
}

/// Whether timings are the totals of other timings, phase by phase.
pub open spec fn are_transaction_totals(
    total: ArtifactCacheTimings,
    each: Seq<ArtifactCacheTimings>,
) -> bool {
    &&& is_capped(
        total.coordination_lock_wait@,
        parts(each, |one: ArtifactCacheTimings| one.coordination_lock_wait@),
    )
    &&& is_capped(
        total.content_lock_wait@,
        parts(each, |one: ArtifactCacheTimings| one.content_lock_wait@),
    )
    &&& is_capped(
        total.namespace_lock_wait@,
        parts(each, |one: ArtifactCacheTimings| one.namespace_lock_wait@),
    )
    &&& is_capped(total.input_capture@, parts(each, |one: ArtifactCacheTimings| one.input_capture@))
    &&& is_capped(total.cache_lookup@, parts(each, |one: ArtifactCacheTimings| one.cache_lookup@))
    &&& is_known_total(total.caller_build, each, |one: ArtifactCacheTimings| one.caller_build)
    &&& is_capped(
        total.output_validation@,
        parts(each, |one: ArtifactCacheTimings| one.output_validation@),
    )
    &&& is_capped(total.publication@, parts(each, |one: ArtifactCacheTimings| one.publication@))
    &&& is_capped(
        total.materialization@,
        parts(each, |one: ArtifactCacheTimings| one.materialization@),
    )
    &&& is_known_total(total.maintenance, each, |one: ArtifactCacheTimings| one.maintenance)
    &&& is_capped(total.total@, parts(each, |one: ArtifactCacheTimings| one.total@))
}

proof fn lemma_transaction_totals_push(
    before: ArtifactCacheTimings,
    one: ArtifactCacheTimings,
    total: ArtifactCacheTimings,
    each: Seq<ArtifactCacheTimings>,
)
    requires
        are_transaction_totals(before, each),
        is_sum(before, one, total),
    ensures
        are_transaction_totals(total, each.push(one)),
{
    lemma_capped_push(
        before.coordination_lock_wait@,
        total.coordination_lock_wait@,
        each,
        one,
        |one: ArtifactCacheTimings| one.coordination_lock_wait@,
    );
    lemma_capped_push(
        before.content_lock_wait@,
        total.content_lock_wait@,
        each,
        one,
        |one: ArtifactCacheTimings| one.content_lock_wait@,
    );
    lemma_capped_push(
        before.namespace_lock_wait@,
        total.namespace_lock_wait@,
        each,
        one,
        |one: ArtifactCacheTimings| one.namespace_lock_wait@,
    );
    lemma_capped_push(
        before.input_capture@,
        total.input_capture@,
        each,
        one,
        |one: ArtifactCacheTimings| one.input_capture@,
    );
    lemma_capped_push(
        before.cache_lookup@,
        total.cache_lookup@,
        each,
        one,
        |one: ArtifactCacheTimings| one.cache_lookup@,
    );
    lemma_known_push(
        before.caller_build,
        total.caller_build,
        each,
        one,
        |one: ArtifactCacheTimings| one.caller_build,
    );
    lemma_capped_push(
        before.output_validation@,
        total.output_validation@,
        each,
        one,
        |one: ArtifactCacheTimings| one.output_validation@,
    );
    lemma_capped_push(
        before.publication@,
        total.publication@,
        each,
        one,
        |one: ArtifactCacheTimings| one.publication@,
    );
    lemma_capped_push(
        before.materialization@,
        total.materialization@,
        each,
        one,
        |one: ArtifactCacheTimings| one.materialization@,
    );
    lemma_known_push(
        before.maintenance,
        total.maintenance,
        each,
        one,
        |one: ArtifactCacheTimings| one.maintenance,
    );
    lemma_capped_push(
        before.total@,
        total.total@,
        each,
        one,
        |one: ArtifactCacheTimings| one.total@,
    );
}

proof fn lemma_no_transaction_totals(total: ArtifactCacheTimings)
    requires
        crate::transaction::acquire::is_zero(total),
    ensures
        are_transaction_totals(total, seq![]),
{
    lemma_nothing_is_capped(|one: ArtifactCacheTimings| one.coordination_lock_wait@);
    lemma_nothing_is_capped(|one: ArtifactCacheTimings| one.content_lock_wait@);
    lemma_nothing_is_capped(|one: ArtifactCacheTimings| one.namespace_lock_wait@);
    lemma_nothing_is_capped(|one: ArtifactCacheTimings| one.input_capture@);
    lemma_nothing_is_capped(|one: ArtifactCacheTimings| one.cache_lookup@);
    lemma_nothing_is_known(|one: ArtifactCacheTimings| one.caller_build);
    lemma_nothing_is_capped(|one: ArtifactCacheTimings| one.output_validation@);
    lemma_nothing_is_capped(|one: ArtifactCacheTimings| one.publication@);
    lemma_nothing_is_capped(|one: ArtifactCacheTimings| one.materialization@);
    lemma_nothing_is_known(|one: ArtifactCacheTimings| one.maintenance);
    lemma_nothing_is_capped(|one: ArtifactCacheTimings| one.total@);
}

/// The times of the successful transactions of a batch add up, phase by phase, and its reused sets
/// are counted one by one.
pub proof fn lemma_transaction_times_add_up<E>(
    results: Seq<Result<ArtifactCacheOutcome, ArtifactCacheBatchFailure<E>>>,
    upto: int,
    total: ArtifactCacheTimings,
)
    requires
        0 <= upto <= results.len(),
        crate::transaction_batch::is_timing_total(results, upto, total),
    ensures
        are_transaction_totals(total, transaction_timings(results.take(upto))),
        crate::transaction_batch::reused_count(results, upto) == results.take(upto).filter(
            |result: Result<ArtifactCacheOutcome, ArtifactCacheBatchFailure<E>>|
                result matches Ok(outcome) && outcome is Reused,
        ).len(),
    decreases upto,
{
    reveal(Seq::filter);
    let chosen = results.take(upto);
    if upto == 0 {
        lemma_no_transaction_totals(total);
        assert(transaction_timings(chosen) =~= seq![]);
    } else {
        let shorter = results.take(upto - 1);
        assert(chosen.drop_last() =~= shorter);
        assert(chosen.last() == results[upto - 1]);
        match results[upto - 1] {
            Err(_) => {
                lemma_transaction_times_add_up(results, upto - 1, total);
                assert(transaction_timings(chosen) =~= transaction_timings(shorter));
            },
            Ok(outcome) => {
                let one = crate::transaction::acquire::outcome_record(outcome).timings;
                let before = choose|before: ArtifactCacheTimings|
                    crate::transaction_batch::is_timing_total(results, upto - 1, before)
                        && #[trigger] is_sum(before, one, total);
                lemma_transaction_times_add_up(results, upto - 1, before);
                lemma_transaction_totals_push(before, one, total, transaction_timings(shorter));
                assert(transaction_timings(chosen) =~= transaction_timings(shorter).push(one));
            },
        }
    }
}

/// A batch is refused for the first build without a snapshot, and only for such a build.
pub proof fn lemma_first_unprepared_build(
    specs: Seq<LabeledWasmBuildSpec>,
    snapshot: WasmBuildInputSnapshotState,
    from: int,
)
    requires
        0 <= from,
    ensures
        match first_unprepared(specs, snapshot, from) {
            Some(at) => {
                &&& from <= at < specs.len()
                &&& snapshot_index(snapshot.snapshots@, specs[at].spec@, 0) is None
                &&& forall|i: int|
                    from <= i < at ==> snapshot_index(
                        snapshot.snapshots@,
                        (#[trigger] specs[i]).spec@,
                        0,
                    ) is Some
            },
            None => forall|i: int|
                from <= i < specs.len() ==> snapshot_index(
                    snapshot.snapshots@,
                    (#[trigger] specs[i]).spec@,
                    0,
                ) is Some,
        },
    decreases specs.len() - from,
{
    if from < specs.len() {
        lemma_first_unprepared_build(specs, snapshot, from + 1);
    }
}

/// Whether a build succeeded and maintained its shared target.
pub open spec fn has_maintained(entry: WasmBuildBatchEntry) -> bool {
    match entry.attempt.result {
        Ok(WasmBuildOutcome::Built(record)) => record.shared_incremental_maintenance is Some,
        Ok(WasmBuildOutcome::Reused(record)) => record.shared_incremental_maintenance is Some,
        Err(_) => false,
    }
}

/// Every build that maintained its shared target is listed, in order, and no other.
pub proof fn lemma_maintained_builds_are_listed(entries: Seq<WasmBuildBatchEntry>, upto: int)
    requires
        0 <= upto <= entries.len(),
    ensures
        maintained_positions(entries, upto).map_values(|at: int| entries[at]) == entries.take(
            upto,
        ).filter(|entry: WasmBuildBatchEntry| has_maintained(entry)),
    decreases upto,
{
    reveal(Seq::filter);
    let view = |at: int| entries[at];
    if upto > 0 {
        lemma_maintained_builds_are_listed(entries, upto - 1);
        assert(entries.take(upto).drop_last() =~= entries.take(upto - 1));
        let before = maintained_positions(entries, upto - 1);
        assert(before.push(upto - 1).map_values(view) =~= before.map_values(view).push(
            entries[upto - 1],
        ));
    } else {
        assert(maintained_positions(entries, upto).map_values(view) =~= seq![]);
        assert(entries.take(upto) =~= seq![]);
    }
}

/// A transaction failed in the last phase that it reached.
pub proof fn lemma_failed_phase_is_the_last_reached(
    timings: crate::transaction_batch::ArtifactCacheBatchFailureTimings,
)
    ensures
        timings.failed_phase() is Commit <==> timings.commit is Some,
        timings.failed_phase() is Callback <==> timings.commit is None && timings.callback is Some,
        timings.failed_phase() is Preparation <==> timings.commit is None && timings.callback
            is None,
{
}

/// The figures of a batch of builds count its successes, its failures, and among the successes what
/// was built and what was reused.
pub proof fn lemma_build_figures(
    metrics: crate::wasm_batch::WasmBuildBatchMetrics,
    report: crate::wasm_batch::WasmBuildBatchReport,
)
    requires
        crate::wasm_batch::are_metrics_of(metrics, report),
    ensures
        ({
            let results = report.entries@.map_values(
                |entry: WasmBuildBatchEntry| entry.attempt.result,
            );
            &&& metrics.specifications == report.entries@.len()
            &&& metrics.succeeded == results.filter(
                |result: Result<WasmBuildOutcome, WasmBuildError>| result is Ok,
            ).len()
            &&& metrics.failed == report.entries@.len() - metrics.succeeded
            &&& metrics.reused == results.filter(
                |result: Result<WasmBuildOutcome, WasmBuildError>|
                    result matches Ok(outcome) && outcome is Reused,
            ).len()
            &&& metrics.built + metrics.reused == metrics.succeeded
            &&& are_build_totals(metrics.successful_timings, build_timings(results))
            &&& metrics.input_resolution == report.input_resolution
            &&& metrics.total == report.total
        }),
{
    let results = crate::wasm_batch::entry_results(report.entries@);
    let view = |entry: WasmBuildBatchEntry| entry.attempt.result;
    assert(results =~= report.entries@.map_values(view));
    let count = results.len() as int;
    assert(results.take(count) =~= results);
    lemma_results_keep_their_order(results, true, count);
    crate::batch::lemma_results_are_counted(results, count);
    lemma_build_times_add_up(results, count, metrics.successful_timings);
    let ok = |result: Result<WasmBuildOutcome, WasmBuildError>| result is Ok;
    let same = |result: Result<WasmBuildOutcome, WasmBuildError>| result is Ok <==> true;
    assert(ok =~= same);
}

/// The figures of a batch of transactions count its successes, its failures, and among the
/// successes what was built and what was reused.
pub proof fn lemma_transaction_figures<E>(
    metrics: crate::transaction_batch::ArtifactCacheBatchMetrics,
    report: crate::transaction_batch::ArtifactCacheBatchReport<E>,
)
    requires
        crate::transaction_batch::are_metrics_of(metrics, report),
    ensures
        ({
            let results = report.outcome_list();
            &&& metrics.entries == results.len()
            &&& metrics.succeeded == results.filter(
                |result: Result<ArtifactCacheOutcome, ArtifactCacheBatchFailure<E>>| result is Ok,
            ).len()
            &&& metrics.failed == results.len() - metrics.succeeded
            &&& metrics.reused == results.filter(
                |result: Result<ArtifactCacheOutcome, ArtifactCacheBatchFailure<E>>|
                    result matches Ok(outcome) && outcome is Reused,
            ).len()
            &&& metrics.built + metrics.reused == metrics.succeeded
            &&& are_transaction_totals(metrics.successful_timings, transaction_timings(results))
            &&& metrics.total == report.total_time()
        }),
{
    let results = report.outcome_list();
    let count = results.len() as int;
    assert(results.take(count) =~= results);
    lemma_results_keep_their_order(results, true, count);
    crate::batch::lemma_results_are_counted(results, count);
    lemma_transaction_times_add_up(results, count, metrics.successful_timings);
    let ok = |result: Result<ArtifactCacheOutcome, ArtifactCacheBatchFailure<E>>| result is Ok;
    let same = |result: Result<ArtifactCacheOutcome, ArtifactCacheBatchFailure<E>>|
        result is Ok <==> true;
    assert(ok =~= same);
}

} // verus!

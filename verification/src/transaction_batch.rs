//! Batches of independent artifact-set transactions.

use vstd::prelude::*;
use vstd::string::*;
use crate::batch::{
    all_succeeded, check_batch_labels, first_fault, first_position, indexed_outcomes, positions,
    LabelFault,
};
use crate::text::{decimal, decimal_text, texts};
use crate::timing::{duration_text, Duration};
use crate::transaction::acquire::{
    is_sum, is_zero, outcome_record, timings_text, ArtifactCacheOutcome, ArtifactCacheRecord,
    ArtifactCacheTimings,
};
use crate::transaction::error::{cache_error_text, ArtifactCacheError};
use crate::transaction::spec::ArtifactCacheSpec;

verus! {

/// One artifact set of a batch under a stable label.
///
/// Labels are composition metadata, not cache identity.
pub struct LabeledArtifactCacheSpec {
    /// Stable label.
    pub label: String,
    /// The artifact set.
    pub spec: ArtifactCacheSpec,
}

impl LabeledArtifactCacheSpec {
    /// Label an artifact set.
    pub fn new(label: &str, spec: ArtifactCacheSpec) -> (labeled: Self)
        ensures
            labeled.label@ == label@,
            labeled.spec == spec,
    {
        LabeledArtifactCacheSpec { label: label.to_owned(), spec }
    }

    /// Stable label.
    pub fn label(&self) -> (label: &str)
        ensures
            label@ == self.label@,
    {
        self.label.as_str()
    }

    /// The artifact set.
    pub fn spec(&self) -> (spec: &ArtifactCacheSpec)
        ensures
            *spec == self.spec,
    {
        &self.spec
    }
}

/// Labels of a list of artifact sets.
pub open spec fn set_labels(specs: Seq<LabeledArtifactCacheSpec>) -> Seq<Seq<char>> {
    specs.map_values(|entry: LabeledArtifactCacheSpec| entry.label@)
}

/// Why a batch is rejected before any of its work starts.
#[derive(Debug)]
pub enum ArtifactCacheBatchContractError {
    /// An entry has an empty label.
    EmptyLabel {
        /// Position of the entry.
        index: usize,
    },
    /// Two entries share a label.
    DuplicateLabel {
        /// The shared label.
        label: String,
        /// Position of the first entry with the label.
        first_index: usize,
        /// Position of the second entry with the label.
        duplicate_index: usize,
    },
}

/// Whether an error says what is wrong with the label at `at`.
pub open spec fn is_label_error(
    error: ArtifactCacheBatchContractError,
    labels: Seq<Seq<char>>,
    at: int,
) -> bool {
    if labels[at].len() == 0 {
        error matches ArtifactCacheBatchContractError::EmptyLabel { index } && index == at
    } else {
        &&& error matches ArtifactCacheBatchContractError::DuplicateLabel {
            label,
            first_index,
            duplicate_index,
        }
        &&& label@ == labels[at]
        &&& first_position(labels, labels[at], at) == Some(first_index as int)
        &&& duplicate_index == at
    }
}

/// Check that the labels of a batch are nonempty and unique.
pub fn validate_batch_labels(specs: &Vec<LabeledArtifactCacheSpec>) -> (result: Result<
    (),
    ArtifactCacheBatchContractError,
>)
    ensures
        match (result, first_fault(set_labels(specs@), 0)) {
            (Ok(()), None) => true,
            (Err(error), Some(at)) => is_label_error(error, set_labels(specs@), at),
            _ => false,
        },
{
    let mut labels: Vec<String> = Vec::new();
    let ghost all = set_labels(specs@);
    let mut at: usize = 0;
    while at < specs.len()
        invariant
            at <= specs@.len(),
            all == set_labels(specs@),
            texts(labels@) == all.take(at as int),
        decreases specs.len() - at,
    {
        let ghost before = texts(labels@);
        labels.push(specs[at].label.clone());
        proof {
            assert(texts(labels@) =~= before.push(all[at as int]));
            assert(all.take(at + 1) =~= all.take(at as int).push(all[at as int]));
        }
        at = at + 1;
    }
    assert(all.take(at as int) =~= all);
    match check_batch_labels(&labels) {
        None => Ok(()),
        Some(LabelFault::Empty { index }) => Err(
            ArtifactCacheBatchContractError::EmptyLabel { index },
        ),
        Some(LabelFault::Duplicate { label, first_index, duplicate_index }) => Err(
            ArtifactCacheBatchContractError::DuplicateLabel {
                label,
                first_index,
                duplicate_index,
            },
        ),
    }
}

/// Failure from one entry in a collect-all artifact transaction batch.
#[derive(Debug)]
pub enum ArtifactCacheBatchFailure<E> {
    /// Cache preparation or commit failed.
    Cache {
        /// Cache preparation or commit failure.
        source: Box<ArtifactCacheError>,
    },
    /// The caller's population callback failed.
    Build {
        /// Caller population failure.
        source: Box<E>,
        /// Failure from synchronously aborting the active transaction.
        cleanup_error: Option<Box<ArtifactCacheError>>,
    },
}

/// Message of a failure whose caller population failure reads `source_text`.
pub open spec fn failure_text<E>(failure: ArtifactCacheBatchFailure<E>, source_text: Seq<char>) -> Seq<
    char,
> {
    match failure {
        ArtifactCacheBatchFailure::Cache { source } => "artifact cache failed: "@
            + cache_error_text(*source),
        ArtifactCacheBatchFailure::Build { source, cleanup_error } => "artifact builder failed: "@
            + source_text + (match cleanup_error {
            Some(error) => "; cleanup also failed: "@ + cache_error_text(*error),
            None => ""@,
        }),
    }
}

impl<E> ArtifactCacheBatchFailure<E> {
    /// A failed preparation or commit.
    pub fn cache(error: ArtifactCacheError) -> (failure: Self)
        ensures
            failure matches ArtifactCacheBatchFailure::Cache { source } && *source == error,
    {
        ArtifactCacheBatchFailure::Cache { source: Box::new(error) }
    }

    /// A failed population, with what aborting its transaction came to.
    pub fn build(source: E, abort: Result<(), ArtifactCacheError>) -> (failure: Self)
        ensures
            failure matches ArtifactCacheBatchFailure::Build { source: kept, cleanup_error } && *kept
                == source && match abort {
                Ok(()) => cleanup_error is None,
                Err(error) => cleanup_error == Some(Box::new(error)),
            },
    {
        let cleanup_error = match abort {
            Ok(()) => None,
            Err(error) => Some(Box::new(error)),
        };
        ArtifactCacheBatchFailure::Build { source: Box::new(source), cleanup_error }
    }

    /// Cleanup failure after a caller population error, when one occurred.
    pub fn cleanup_error(&self) -> (error: Option<&ArtifactCacheError>)
        ensures
            match *self {
                ArtifactCacheBatchFailure::Build { cleanup_error: Some(found), .. } => error
                    == Some(&*found),
                _ => error is None,
            },
    {
        match self {
            ArtifactCacheBatchFailure::Build { cleanup_error: Some(error), .. } => Some(error),
            _ => None,
        }
    }

    /// The message of the failure, given the message of a caller population failure.
    pub fn render(&self, source_text: &str) -> (text: String)
        ensures
            text@ == failure_text(*self, source_text@),
    {
        match self {
            ArtifactCacheBatchFailure::Cache { source } => {
                let mut text = "artifact cache failed: ".to_owned();
                text.append(source.render().as_str());
                text
            },
            ArtifactCacheBatchFailure::Build { source, cleanup_error } => {
                let mut text = "artifact builder failed: ".to_owned();
                text.append(source_text);
                match cleanup_error {
                    Some(error) => {
                        text.append("; cleanup also failed: ");
                        text.append(error.render().as_str());
                    },
                    None => {
                        text.append("");
                    },
                }
                assert(text@ =~= failure_text(*self, source_text@));
                text
            },
        }
    }
}

/// Step of a batch entry that failed.
#[derive(Clone, Copy, Debug, PartialEq, Eq, Structural)]
pub enum ArtifactCacheBatchFailurePhase {
    /// The cache could not be prepared.
    Preparation,
    /// The caller's population callback failed.
    Callback,
    /// The transaction could not be committed.
    Commit,
}

/// How long the steps of a failed batch entry took; a step that was not reached took no time.
#[derive(Clone, Copy, Debug)]
pub struct ArtifactCacheBatchFailureTimings {
    /// Preparation of the cache.
    pub preparation: Duration,
    /// The caller's population callback.
    pub callback: Option<Duration>,
    /// Explicit abort of the transaction after a failed callback.
    pub abort: Option<Duration>,
    /// Commit, with its own cleanup after a failure.
    pub commit: Option<Duration>,
}

impl ArtifactCacheBatchFailureTimings {
    /// The step that failed: a callback is aborted after it failed and committed after it did not.
    pub open spec fn failed_phase(self) -> ArtifactCacheBatchFailurePhase {
        if self.commit is Some {
            ArtifactCacheBatchFailurePhase::Commit
        } else if self.callback is Some {
            ArtifactCacheBatchFailurePhase::Callback
        } else {
            ArtifactCacheBatchFailurePhase::Preparation
        }
    }

    /// The step that failed.
    pub fn phase(self) -> (phase: ArtifactCacheBatchFailurePhase)
        ensures
            phase == self.failed_phase(),
    {
        if self.commit.is_some() {
            ArtifactCacheBatchFailurePhase::Commit
        } else if self.callback.is_some() {
            ArtifactCacheBatchFailurePhase::Callback
        } else {
            ArtifactCacheBatchFailurePhase::Preparation
        }
    }

    /// Preparation of the cache.
    pub fn preparation(self) -> (time: Duration)
        ensures
            time == self.preparation,
    {
        self.preparation
    }

    /// The caller's population callback.
    pub fn callback(self) -> (time: Option<Duration>)
        ensures
            time == self.callback,
    {
        self.callback
    }

    /// Explicit abort of the transaction after a failed callback.
    pub fn abort(self) -> (time: Option<Duration>)
        ensures
            time == self.abort,
    {
        self.abort
    }

    /// Commit, with its own cleanup after a failure.
    pub fn commit(self) -> (time: Option<Duration>)
        ensures
            time == self.commit,
    {
        self.commit
    }
}

/// How far a batch entry came, with the time that each of its steps took.
#[derive(Debug)]
pub enum EntryCourse<E> {
    /// The cache could not be prepared.
    NotPrepared {
        /// Why not.
        error: ArtifactCacheError,
        /// Time of the preparation.
        preparation: Duration,
    },
    /// The cache holds the artifact set.
    Reused {
        /// The artifact set.
        record: ArtifactCacheRecord,
    },
    /// The callback failed, and its transaction was aborted.
    NotPopulated {
        /// Failure of the callback.
        source: E,
        /// What the abort came to.
        aborted: Result<(), ArtifactCacheError>,
        /// Time of the preparation.
        preparation: Duration,
        /// Time of the callback.
        callback: Duration,
        /// Time of the abort.
        abort: Duration,
    },
    /// The callback succeeded, and its transaction was committed.
    Populated {
        /// What the commit came to.
        committed: Result<ArtifactCacheOutcome, ArtifactCacheError>,
        /// Time of the preparation.
        preparation: Duration,
        /// Time of the callback.
        callback: Duration,
        /// Time of the commit.
        commit: Duration,
    },
}

/// What a batch entry does next.
#[derive(Debug)]
pub enum EntryStep<E> {
    /// Let the callback populate the transaction.
    Populate {
        /// Time of the preparation.
        preparation: Duration,
    },
    /// Commit the populated transaction.
    Commit {
        /// Time of the preparation.
        preparation: Duration,
        /// Time of the callback.
        callback: Duration,
    },
    /// Abort the transaction that the callback could not populate.
    Abort {
        /// Failure of the callback.
        source: E,
        /// Time of the preparation.
        preparation: Duration,
        /// Time of the callback.
        callback: Duration,
    },
    /// Nothing: the entry has run its course.
    Settle(EntryCourse<E>),
}

impl<E> EntryStep<E> {
    /// The cache was prepared: it holds the artifact set, or a transaction waits to be populated.
    pub fn prepared(
        result: Result<Option<ArtifactCacheRecord>, ArtifactCacheError>,
        preparation: Duration,
    ) -> (step: Self)
        ensures
            step == match result {
                Err(error) => EntryStep::<E>::Settle(
                    EntryCourse::NotPrepared { error, preparation },
                ),
                Ok(Some(record)) => EntryStep::Settle(EntryCourse::Reused { record }),
                Ok(None) => EntryStep::Populate { preparation },
            },
    {
        match result {
            Err(error) => EntryStep::Settle(EntryCourse::NotPrepared { error, preparation }),
            Ok(Some(record)) => EntryStep::Settle(EntryCourse::Reused { record }),
            Ok(None) => EntryStep::Populate { preparation },
        }
    }

    /// The callback came to an end: only what it populated is committed, anything else aborted.
    pub fn populated(self, result: Result<(), E>, callback: Duration) -> (step: Self)
        requires
            self is Populate,
        ensures
            step == match result {
                Ok(()) => EntryStep::Commit { preparation: self->Populate_preparation, callback },
                Err(source) => EntryStep::Abort {
                    source,
                    preparation: self->Populate_preparation,
                    callback,
                },
            },
    {
        match (self, result) {
            (EntryStep::Populate { preparation }, Ok(())) => EntryStep::Commit {
                preparation,
                callback,
            },
            (EntryStep::Populate { preparation }, Err(source)) => EntryStep::Abort {
                source,
                preparation,
                callback,
            },
            _ => vstd::pervasive::unreached(),
        }
    }

    /// The transaction was committed, or could not be.
    pub fn committed(
        self,
        committed: Result<ArtifactCacheOutcome, ArtifactCacheError>,
        commit: Duration,
    ) -> (step: Self)
        requires
            self is Commit,
        ensures
            step == EntryStep::<E>::Settle(
                EntryCourse::Populated {
                    committed,
                    preparation: self->Commit_preparation,
                    callback: self->Commit_callback,
                    commit,
                },
            ),
    {
        match self {
            EntryStep::Commit { preparation, callback } => EntryStep::Settle(
                EntryCourse::Populated { committed, preparation, callback, commit },
            ),
            _ => vstd::pervasive::unreached(),
        }
    }

    /// The transaction was aborted, or could not be.
    pub fn aborted(self, aborted: Result<(), ArtifactCacheError>, abort: Duration) -> (step: Self)
        requires
            self is Abort,
        ensures
            step == EntryStep::<E>::Settle(
                EntryCourse::NotPopulated {
                    source: self->source,
                    aborted,
                    preparation: self->Abort_preparation,
                    callback: self->Abort_callback,
                    abort,
                },
            ),
    {
        match self {
            EntryStep::Abort { source, preparation, callback } => EntryStep::Settle(
                EntryCourse::NotPopulated { source, aborted, preparation, callback, abort },
            ),
            _ => vstd::pervasive::unreached(),
        }
    }
}

/// Result of a batch entry, and the times of its steps when it failed.
#[derive(Debug)]
pub struct SettledEntry<E> {
    /// Outcome or failure.
    pub result: Result<ArtifactCacheOutcome, ArtifactCacheBatchFailure<E>>,
    /// Times of the steps, when the entry failed.
    pub failure_timings: Option<ArtifactCacheBatchFailureTimings>,
}

/// What the course of a batch entry amounts to.
pub fn settle_entry<E>(course: EntryCourse<E>) -> (settled: SettledEntry<E>)
    ensures
        settled.failure_timings is Some == settled.result is Err,
        match course {
            EntryCourse::NotPrepared { error, preparation } => {
                &&& settled.result matches Err(ArtifactCacheBatchFailure::Cache { source })
                    && *source == error
                &&& settled.failure_timings == Some(
                    ArtifactCacheBatchFailureTimings {
                        preparation,
                        callback: None,
                        abort: None,
                        commit: None,
                    },
                )
            },
            EntryCourse::Reused { record } => settled.result
                == Ok::<ArtifactCacheOutcome, ArtifactCacheBatchFailure<E>>(
                ArtifactCacheOutcome::Reused(record),
            ),
            EntryCourse::NotPopulated { source, aborted, preparation, callback, abort } => {
                &&& settled.result matches Err(
                    ArtifactCacheBatchFailure::Build { source: kept, cleanup_error },
                ) && *kept == source && match aborted {
                    Ok(()) => cleanup_error is None,
                    Err(error) => cleanup_error == Some(Box::new(error)),
                }
                &&& settled.failure_timings == Some(
                    ArtifactCacheBatchFailureTimings {
                        preparation,
                        callback: Some(callback),
                        abort: Some(abort),
                        commit: None,
                    },
                )
            },
            EntryCourse::Populated { committed, preparation, callback, commit } => match committed {
                Ok(outcome) => settled.result == Ok::<
                    ArtifactCacheOutcome,
                    ArtifactCacheBatchFailure<E>,
                >(outcome),
                Err(error) => {
                    &&& settled.result matches Err(ArtifactCacheBatchFailure::Cache { source })
                        && *source == error
                    &&& settled.failure_timings == Some(
                        ArtifactCacheBatchFailureTimings {
                            preparation,
                            callback: Some(callback),
                            abort: None,
                            commit: Some(commit),
                        },
                    )
                },
            },
        },
{
    match course {
        EntryCourse::NotPrepared { error, preparation } => SettledEntry {
            result: Err(ArtifactCacheBatchFailure::cache(error)),
            failure_timings: Some(
                ArtifactCacheBatchFailureTimings {
                    preparation,
                    callback: None,
                    abort: None,
                    commit: None,
                },
            ),
        },
        EntryCourse::Reused { record } => SettledEntry {
            result: Ok(ArtifactCacheOutcome::Reused(record)),
            failure_timings: None,
        },
        EntryCourse::NotPopulated { source, aborted, preparation, callback, abort } => SettledEntry {
            result: Err(ArtifactCacheBatchFailure::build(source, aborted)),
            failure_timings: Some(
                ArtifactCacheBatchFailureTimings {
                    preparation,
                    callback: Some(callback),
                    abort: Some(abort),
                    commit: None,
                },
            ),
        },
        EntryCourse::Populated { committed, preparation, callback, commit } => match committed {
            Ok(outcome) => SettledEntry { result: Ok(outcome), failure_timings: None },
            Err(error) => SettledEntry {
                result: Err(ArtifactCacheBatchFailure::cache(error)),
                failure_timings: Some(
                    ArtifactCacheBatchFailureTimings {
                        preparation,
                        callback: Some(callback),
                        abort: None,
                        commit: Some(commit),
                    },
                ),
            },
        },
    }
}

/// Aggregate counters and successful-acquisition timings for an artifact batch.
#[derive(Clone, Copy, Debug, PartialEq, Eq, Structural)]
pub struct ArtifactCacheBatchMetrics {
    /// Number of supplied specifications.
    pub entries: usize,
    /// Number of successful specifications.
    pub succeeded: usize,
    /// Number of failed specifications.
    pub failed: usize,
    /// Number of newly built artifact sets.
    pub built: usize,
    /// Number of artifact sets reused from the exact cache.
    pub reused: usize,
    /// Sum of timings from successful acquisitions.
    pub successful_timings: ArtifactCacheTimings,
    /// Complete wall-clock time for the sequential batch.
    pub total: Duration,
}

impl ArtifactCacheBatchMetrics {
    /// Number of supplied specifications.
    pub fn entries(self) -> (count: usize)
        ensures
            count == self.entries,
    {
        self.entries
    }

    /// Number of successful specifications.
    pub fn succeeded(self) -> (count: usize)
        ensures
            count == self.succeeded,
    {
        self.succeeded
    }

    /// Number of failed specifications.
    pub fn failed(self) -> (count: usize)
        ensures
            count == self.failed,
    {
        self.failed
    }

    /// Number of newly built artifact sets.
    pub fn built(self) -> (count: usize)
        ensures
            count == self.built,
    {
        self.built
    }

    /// Number of artifact sets reused from the exact cache.
    pub fn reused(self) -> (count: usize)
        ensures
            count == self.reused,
    {
        self.reused
    }

    /// Sum of timings from successful acquisitions.
    pub fn successful_timings(self) -> (timings: ArtifactCacheTimings)
        ensures
            timings == self.successful_timings,
    {
        self.successful_timings
    }

    /// Complete wall-clock time for the sequential batch.
    pub fn total(self) -> (time: Duration)
        ensures
            time == self.total,
    {
        self.total
    }
}

/// How many of the first `upto` entries reused an entry of the cache.
pub open spec fn reused_count<E>(
    results: Seq<Result<ArtifactCacheOutcome, ArtifactCacheBatchFailure<E>>>,
    upto: int,
) -> nat
    decreases upto,
{
    if upto <= 0 {
        0
    } else {
        reused_count(results, upto - 1) + if results[upto - 1] matches Ok(outcome)
            && outcome is Reused {
            1nat
        } else {
            0nat
        }
    }
}

/// Whether `total` sums the timings of the successes among the first `upto` results.
pub open spec fn is_timing_total<E>(
    results: Seq<Result<ArtifactCacheOutcome, ArtifactCacheBatchFailure<E>>>,
    upto: int,
    total: ArtifactCacheTimings,
) -> bool
    decreases upto,
{
    if upto <= 0 {
        is_zero(total)
    } else {
        match results[upto - 1] {
            Err(_) => is_timing_total(results, upto - 1, total),
            Ok(outcome) => exists|before: ArtifactCacheTimings|
                is_timing_total(results, upto - 1, before) && #[trigger] is_sum(
                    before,
                    outcome_record(outcome).timings,
                    total,
                ),
        }
    }
}

/// Metrics as text.
pub open spec fn metrics_text(metrics: ArtifactCacheBatchMetrics) -> Seq<char> {
    "entries="@ + decimal(metrics.entries as nat) + " succeeded="@ + decimal(
        metrics.succeeded as nat,
    ) + " failed="@ + decimal(metrics.failed as nat) + " built="@ + decimal(metrics.built as nat)
        + " reused="@ + decimal(metrics.reused as nat) + " successful_timings=("@ + timings_text(
        metrics.successful_timings,
    ) + ") total="@ + duration_text(metrics.total@)
}

/// Ordered outcomes and failures from a collect-all artifact transaction batch.
#[derive(Debug)]
pub struct ArtifactCacheBatchReport<E> {
    labels: Vec<String>,
    results: Vec<Result<ArtifactCacheOutcome, ArtifactCacheBatchFailure<E>>>,
    failure_timings: Vec<Option<ArtifactCacheBatchFailureTimings>>,
    entry_elapsed: Vec<Duration>,
    total: Duration,
}

/// A failed entry of a batch report.
#[derive(Debug)]
pub struct ArtifactCacheBatchFailedEntry<'a, E> {
    /// Zero-based position in the supplied specifications.
    pub index: usize,
    /// Label of the entry.
    pub label: &'a str,
    /// Wall-clock time of the entry.
    pub entry_elapsed: Duration,
    /// What went wrong.
    pub failure: &'a ArtifactCacheBatchFailure<E>,
    /// How long the steps of the entry took.
    pub timings: ArtifactCacheBatchFailureTimings,
}

impl<'a, E> ArtifactCacheBatchFailedEntry<'a, E> {
    /// Zero-based position in the supplied specifications.
    pub fn index(&self) -> (index: usize)
        ensures
            index == self.index,
    {
        self.index
    }

    /// Label of the entry.
    pub fn label(&self) -> (label: &str)
        ensures
            label@ == self.label@,
    {
        self.label
    }

    /// Wall-clock time of the entry.
    pub fn entry_elapsed(&self) -> (time: Duration)
        ensures
            time == self.entry_elapsed,
    {
        self.entry_elapsed
    }

    /// What went wrong.
    pub fn failure(&self) -> (failure: &ArtifactCacheBatchFailure<E>)
        ensures
            *failure == *self.failure,
    {
        self.failure
    }

    /// How long the steps of the entry took.
    pub fn timings(&self) -> (timings: ArtifactCacheBatchFailureTimings)
        ensures
            timings == self.timings,
    {
        self.timings
    }

    /// The step that failed.
    pub fn phase(&self) -> (phase: ArtifactCacheBatchFailurePhase)
        ensures
            phase == self.timings.failed_phase(),
    {
        self.timings.phase()
    }
}

/// Whether metrics are those of a report.
pub open spec fn are_metrics_of<E>(
    metrics: ArtifactCacheBatchMetrics,
    report: ArtifactCacheBatchReport<E>,
) -> bool {
    let results = report.outcome_list();
    let count = results.len() as int;
    &&& metrics.entries == count
    &&& metrics.succeeded == positions(results, true, count).len()
    &&& metrics.failed == positions(results, false, count).len()
    &&& metrics.reused == reused_count(results, count)
    &&& metrics.built == metrics.succeeded - metrics.reused
    &&& is_timing_total(results, count, metrics.successful_timings)
    &&& metrics.total == report.total_time()
}

impl<E> ArtifactCacheBatchReport<E> {
    /// Labels of the entries, in order.
    pub closed spec fn label_list(&self) -> Seq<Seq<char>> {
        texts(self.labels@)
    }

    /// Results of the entries, in order.
    pub closed spec fn outcome_list(&self) -> Seq<
        Result<ArtifactCacheOutcome, ArtifactCacheBatchFailure<E>>,
    > {
        self.results@
    }

    /// Times of the steps of the failed entries, in the order of all entries.
    pub closed spec fn failure_timing_list(&self) -> Seq<Option<ArtifactCacheBatchFailureTimings>> {
        self.failure_timings@
    }

    /// Wall-clock times of the entries, in order.
    pub closed spec fn elapsed_list(&self) -> Seq<Duration> {
        self.entry_elapsed@
    }

    /// Complete wall-clock time.
    pub closed spec fn total_time(&self) -> Duration {
        self.total
    }

    /// Whether every result has a label and a time, and every failure the times of its steps.
    pub open spec fn wf(&self) -> bool {
        &&& self.label_list().len() == self.outcome_list().len()
        &&& self.failure_timing_list().len() == self.outcome_list().len()
        &&& forall|i: int|
            0 <= i < self.outcome_list().len() ==> (#[trigger] self.outcome_list()[i]) is Err
                == self.failure_timing_list()[i] is Some
        &&& self.elapsed_list().len() == self.outcome_list().len()
    }

    /// A report without entries.
    pub fn begin() -> (report: Self)
        ensures
            report.wf(),
            report.outcome_list().len() == 0,
            report.total_time()@ == 0,
    {
        ArtifactCacheBatchReport {
            labels: Vec::new(),
            results: Vec::new(),
            failure_timings: Vec::new(),
            entry_elapsed: Vec::new(),
            total: Duration::zero(),
        }
    }

    /// Keep the result of the next entry.
    pub fn record(
        &mut self,
        label: &str,
        settled: SettledEntry<E>,
        elapsed: Duration,
    )
        requires
            old(self).wf(),
            settled.failure_timings is Some == settled.result is Err,
        ensures
            final(self).wf(),
            final(self).label_list() == old(self).label_list().push(label@),
            final(self).outcome_list() == old(self).outcome_list().push(settled.result),
            final(self).failure_timing_list() == old(self).failure_timing_list().push(
                settled.failure_timings,
            ),
            final(self).elapsed_list() == old(self).elapsed_list().push(elapsed),
            final(self).total_time() == old(self).total_time(),
    {
        self.labels.push(label.to_owned());
        self.results.push(settled.result);
        self.failure_timings.push(settled.failure_timings);
        self.entry_elapsed.push(elapsed);
        assert(self.label_list() =~= old(self).label_list().push(label@));
    }

    /// The report after `total` time.
    pub fn finish(self, total: Duration) -> (report: Self)
        requires
            self.wf(),
        ensures
            report.wf(),
            report.label_list() == self.label_list(),
            report.outcome_list() == self.outcome_list(),
            report.failure_timing_list() == self.failure_timing_list(),
            report.elapsed_list() == self.elapsed_list(),
            report.total_time() == total,
    {
        ArtifactCacheBatchReport { total, ..self }
    }

    /// Per-specification results in the supplied order.
    pub fn results(&self) -> (results: &Vec<
        Result<ArtifactCacheOutcome, ArtifactCacheBatchFailure<E>>,
    >)
        ensures
            results@ == self.outcome_list(),
    {
        &self.results
    }

    /// Consume the report and return its ordered per-specification results.
    pub fn into_results(self) -> (results: Vec<
        Result<ArtifactCacheOutcome, ArtifactCacheBatchFailure<E>>,
    >)
        ensures
            results@ == self.outcome_list(),
    {
        self.results
    }

    /// Labels of the entries, in order.
    pub fn labels(&self) -> (labels: &Vec<String>)
        ensures
            texts(labels@) == self.label_list(),
    {
        &self.labels
    }

    /// Wall-clock time retained for every entry, including failed entries.
    pub fn entry_elapsed(&self) -> (times: &Vec<Duration>)
        ensures
            times@ == self.elapsed_list(),
    {
        &self.entry_elapsed
    }

    /// Successful outcomes with their specification indexes.
    pub fn outcomes(&self) -> (outcomes: Vec<(usize, &ArtifactCacheOutcome)>)
        ensures
            ({
                let results = self.outcome_list();
                let places = positions(results, true, results.len() as int);
                &&& outcomes@.len() == places.len()
                &&& forall|k: int|
                    0 <= k < places.len() ==> (#[trigger] outcomes@[k]).0 == places[k]
                        && results[places[k]] is Ok && *outcomes@[k].1 == results[places[k]]->Ok_0
            }),
    {
        indexed_outcomes(&self.results)
    }

    /// Failed entries, in order.
    pub fn failures(&self) -> (failures: Vec<ArtifactCacheBatchFailedEntry<'_, E>>)
        requires
            self.wf(),
        ensures
            ({
                let results = self.outcome_list();
                let places = positions(results, false, results.len() as int);
                &&& failures@.len() == places.len()
                &&& forall|k: int|
                    0 <= k < places.len() ==> {
                        let place = places[k];
                        &&& (#[trigger] failures@[k]).index == place
                        &&& failures@[k].label@ == self.label_list()[place]
                        &&& failures@[k].entry_elapsed == self.elapsed_list()[place]
                        &&& results[place] is Err
                        &&& *failures@[k].failure == results[place]->Err_0
                        &&& Some(failures@[k].timings) == self.failure_timing_list()[place]
                    }
            }),
    {
        let ghost results = self.outcome_list();
        let mut failures: Vec<ArtifactCacheBatchFailedEntry<'_, E>> = Vec::new();
        let mut at: usize = 0;
        assert(texts(self.labels@).len() == self.labels@.len());
        while at < self.results.len()
            invariant
                at <= self.results@.len(),
                results == self.results@,
                self.labels@.len() == self.results@.len(),
                self.entry_elapsed@.len() == self.results@.len(),
                self.failure_timings@.len() == self.results@.len(),
                forall|i: int|
                    0 <= i < results.len() ==> (#[trigger] results[i]) is Err
                        == self.failure_timings@[i] is Some,
                failures@.len() == positions(results, false, at as int).len(),
                forall|k: int|
                    0 <= k < failures@.len() ==> {
                        let place = positions(results, false, at as int)[k];
                        &&& (#[trigger] failures@[k]).index == place
                        &&& failures@[k].label@ == self.label_list()[place]
                        &&& failures@[k].entry_elapsed == self.elapsed_list()[place]
                        &&& results[place] is Err
                        &&& *failures@[k].failure == results[place]->Err_0
                        &&& Some(failures@[k].timings) == self.failure_timing_list()[place]
                    },
            decreases self.results.len() - at,
        {
            let ghost before = failures@;
            if let (Err(failure), Some(timings)) = (&self.results[at], self.failure_timings[at]) {
                assert(self.label_list()[at as int] == self.labels@[at as int]@);
                failures.push(
                    ArtifactCacheBatchFailedEntry {
                        index: at,
                        label: self.labels[at].as_str(),
                        entry_elapsed: self.entry_elapsed[at],
                        failure,
                        timings,
                    },
                );
            }
            assert(results[at as int] is Err == self.failure_timings@[at as int] is Some);
            proof {
                let places = positions(results, false, at as int);
                let next = positions(results, false, at + 1);
                assert forall|k: int| 0 <= k < failures@.len() implies ({
                    let place = next[k];
                    &&& (#[trigger] failures@[k]).index == place
                    &&& failures@[k].label@ == self.label_list()[place]
                    &&& failures@[k].entry_elapsed == self.elapsed_list()[place]
                    &&& results[place] is Err
                    &&& *failures@[k].failure == results[place]->Err_0
                    &&& Some(failures@[k].timings) == self.failure_timing_list()[place]
                }) by {
                    if k < before.len() {
                        assert(failures@[k] == before[k]);
                        assert(next[k] == places[k]);
                    }
                }
            }
            at = at + 1;
        }
        failures
    }

    /// Complete wall-clock time for the sequential collect-all batch.
    pub fn total(&self) -> (time: Duration)
        ensures
            time == self.total_time(),
    {
        self.total
    }

    /// Whether every specification completed successfully.
    pub fn is_success(&self) -> (success: bool)
        ensures
            success == forall|i: int|
                0 <= i < self.outcome_list().len() ==> (#[trigger] self.outcome_list()[i]) is Ok,
    {
        all_succeeded(&self.results)
    }

    /// Aggregate outcome counters and successful-acquisition timings.
    pub fn metrics(&self) -> (metrics: ArtifactCacheBatchMetrics)
        ensures
            are_metrics_of(metrics, *self),
    {
        let ghost results = self.outcome_list();
        let mut succeeded: usize = 0;
        let mut failed: usize = 0;
        let mut built: usize = 0;
        let mut reused: usize = 0;
        let mut timings = ArtifactCacheTimings::default();
        let mut at: usize = 0;
        while at < self.results.len()
            invariant
                at <= self.results@.len(),
                results == self.results@,
                succeeded + failed == at,
                built + reused == succeeded,
                succeeded == positions(results, true, at as int).len(),
                failed == positions(results, false, at as int).len(),
                reused == reused_count(results, at as int),
                is_timing_total(results, at as int, timings),
            decreases self.results.len() - at,
        {
            match &self.results[at] {
                Ok(outcome) => {
                    succeeded = succeeded + 1;
                    if outcome.is_reused() {
                        reused = reused + 1;
                    } else {
                        built = built + 1;
                    }
                    let ghost before = timings;
                    timings = timings.saturating_add(outcome.record().timings());
                    assert(is_sum(before, outcome_record(*outcome).timings, timings));
                },
                Err(_) => {
                    failed = failed + 1;
                },
            }
            at = at + 1;
        }
        ArtifactCacheBatchMetrics {
            entries: self.results.len(),
            succeeded,
            failed,
            built,
            reused,
            successful_timings: timings,
            total: self.total,
        }
    }

    /// The report as one line of text.
    pub fn render(&self) -> (text: String)
        ensures
            exists|metrics: ArtifactCacheBatchMetrics|
                are_metrics_of(metrics, *self) && text@ == #[trigger] metrics_text(metrics),
    {
        let metrics = self.metrics();
        let mut text = "entries=".to_owned();
        text.append(decimal_text(metrics.entries as u128).as_str());
        text.append(" succeeded=");
        text.append(decimal_text(metrics.succeeded as u128).as_str());
        text.append(" failed=");
        text.append(decimal_text(metrics.failed as u128).as_str());
        text.append(" built=");
        text.append(decimal_text(metrics.built as u128).as_str());
        text.append(" reused=");
        text.append(decimal_text(metrics.reused as u128).as_str());
        text.append(" successful_timings=(");
        text.append(metrics.successful_timings.render().as_str());
        text.append(") total=");
        text.append(metrics.total.render().as_str());
        assert(text@ =~= metrics_text(metrics));
        text
    }
}

} // verus!

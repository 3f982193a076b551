//! What batches of independent acquisitions have in common: labels and ordered results.

use vstd::prelude::*;
use vstd::string::*;
use crate::text::{text_equal, texts};

verus! {

/// Why the labels of a batch are not accepted.
#[derive(Debug)]
pub enum LabelFault {
    /// An entry has an empty label.
    Empty {
        /// Position of the entry.
        index: usize,
    },
    /// Two entries share a label.
    Duplicate {
        /// The shared label.
        label: String,
        /// Position of the first entry with the label.
        first_index: usize,
        /// Position of the second entry with the label.
        duplicate_index: usize,
    },
}

/// Position of the first label that equals `label`, among the first `upto`.
pub open spec fn first_position(labels: Seq<Seq<char>>, label: Seq<char>, upto: int) -> Option<int>
    decreases upto,
{
    if upto <= 0 {
        None
    } else {
        match first_position(labels, label, upto - 1) {
            Some(at) => Some(at),
            None => if labels[upto - 1] == label {
                Some(upto - 1)
            } else {
                None
            },
        }
    }
}

/// Whether a label can stand at `at`: it is not empty and no entry before has it.
pub open spec fn is_fresh(labels: Seq<Seq<char>>, at: int) -> bool {
    labels[at].len() > 0 && first_position(labels, labels[at], at) is None
}

/// Position of the first label from `from` on that cannot stand there.
pub open spec fn first_fault(labels: Seq<Seq<char>>, from: int) -> Option<int>
    decreases labels.len() - from,
{
    if from < 0 || from >= labels.len() {
        None
    } else if is_fresh(labels, from) {
        first_fault(labels, from + 1)
    } else {
        Some(from)
    }
}

/// Whether a fault is what is wrong with the label at `at`.
pub open spec fn is_fault_at(fault: LabelFault, labels: Seq<Seq<char>>, at: int) -> bool {
    if labels[at].len() == 0 {
        fault matches LabelFault::Empty { index } && index == at
    } else {
        &&& fault matches LabelFault::Duplicate { label, first_index, duplicate_index }
        &&& label@ == labels[at]
        &&& first_position(labels, labels[at], at) == Some(first_index as int)
        &&& duplicate_index == at
    }
}

/// Check that the labels of a batch are nonempty and unique.
pub fn check_batch_labels(labels: &Vec<String>) -> (fault: Option<LabelFault>)
    ensures
        match (fault, first_fault(texts(labels@), 0)) {
            (None, None) => true,
            (Some(found), Some(at)) => is_fault_at(found, texts(labels@), at),
            _ => false,
        },
{
    let ghost all = texts(labels@);
    let mut at: usize = 0;
    while at < labels.len()
        invariant
            at <= labels@.len(),
            all == texts(labels@),
            first_fault(all, 0) == first_fault(all, at as int),
        decreases labels.len() - at,
    {
        assert(all[at as int] == labels@[at as int]@);
        if labels[at].as_str().is_empty() {
            return Some(LabelFault::Empty { index: at });
        }
        let mut earlier: usize = 0;
        while earlier < at
            invariant
                earlier <= at < labels@.len(),
                all == texts(labels@),
                all[at as int] == labels@[at as int]@,
                all[at as int].len() > 0,
                first_fault(all, 0) == first_fault(all, at as int),
                first_position(all, all[at as int], earlier as int) is None,
            decreases at - earlier,
        {
            assert(all[earlier as int] == labels@[earlier as int]@);
            if text_equal(labels[earlier].as_str(), labels[at].as_str()) {
                proof {
                    lemma_first_position_stays(all, all[at as int], earlier + 1, at as int);
                }
                return Some(
                    LabelFault::Duplicate {
                        label: labels[at].clone(),
                        first_index: earlier,
                        duplicate_index: at,
                    },
                );
            }
            earlier = earlier + 1;
        }
        at = at + 1;
    }
    None
}

proof fn lemma_first_position_stays(
    labels: Seq<Seq<char>>,
    label: Seq<char>,
    shorter: int,
    longer: int,
)
    requires
        shorter <= longer,
        first_position(labels, label, shorter) is Some,
    ensures
        first_position(labels, label, longer) == first_position(labels, label, shorter),
    decreases longer,
{
    if shorter < longer && longer > 0 {
        lemma_first_position_stays(labels, label, shorter, longer - 1);
    }
}

proof fn lemma_first_position_none(labels: Seq<Seq<char>>, label: Seq<char>, upto: int, at: int)
    requires
        first_position(labels, label, upto) is None,
        0 <= at < upto,
    ensures
        labels[at] != label,
    decreases upto,
{
    if at < upto - 1 {
        lemma_first_position_none(labels, label, upto - 1, at);
    }
}

proof fn lemma_no_fault(labels: Seq<Seq<char>>, from: int, at: int)
    requires
        0 <= from <= at < labels.len(),
        first_fault(labels, from) is None,
    ensures
        is_fresh(labels, at),
    decreases at - from,
{
    if from < at {
        lemma_no_fault(labels, from + 1, at);
    }
}

/// The labels of an accepted batch are nonempty and pairwise different.
pub proof fn lemma_accepted_labels_are_unique(labels: Seq<Seq<char>>)
    requires
        first_fault(labels, 0) is None,
    ensures
        forall|i: int| 0 <= i < labels.len() ==> (#[trigger] labels[i]).len() > 0,
        forall|i: int, j: int|
            #![trigger labels[i], labels[j]]
            0 <= i < j < labels.len() ==> labels[i] != labels[j],
{
    assert forall|i: int| 0 <= i < labels.len() implies (#[trigger] labels[i]).len() > 0 by {
        lemma_no_fault(labels, 0, i);
    }
    assert forall|i: int, j: int| #![trigger labels[i], labels[j]] 0 <= i < j < labels.len() implies labels[i]
        != labels[j] by {
        lemma_no_fault(labels, 0, j);
        lemma_first_position_none(labels, labels[j], j, i);
    }
}

/// Positions of the results among the first `upto` that are successes, or that are failures.
pub open spec fn positions<T, E>(results: Seq<Result<T, E>>, successes: bool, upto: int) -> Seq<int>
    decreases upto,
{
    if upto <= 0 {
        seq![]
    } else if results[upto - 1] is Ok == successes {
        positions(results, successes, upto - 1).push(upto - 1)
    } else {
        positions(results, successes, upto - 1)
    }
}

/// Successful outcomes with their positions, in order.
pub fn indexed_outcomes<T, E>(results: &Vec<Result<T, E>>) -> (outcomes: Vec<(usize, &T)>)
    ensures
        outcomes@.len() == positions(results@, true, results@.len() as int).len(),
        forall|k: int|
            0 <= k < outcomes@.len() ==> {
                let at = positions(results@, true, results@.len() as int)[k];
                (#[trigger] outcomes@[k]).0 == at && results@[at] is Ok && *outcomes@[k].1
                    == results@[at]->Ok_0
            },
{
    let mut outcomes: Vec<(usize, &T)> = Vec::new();
    let mut at: usize = 0;
    while at < results.len()
        invariant
            at <= results@.len(),
            outcomes@.len() == positions(results@, true, at as int).len(),
            forall|k: int|
                0 <= k < outcomes@.len() ==> {
                    let place = positions(results@, true, at as int)[k];
                    (#[trigger] outcomes@[k]).0 == place && results@[place] is Ok && *outcomes@[k].1
                        == results@[place]->Ok_0
                },
        decreases results.len() - at,
    {
        let ghost before = outcomes@;
        if let Ok(outcome) = &results[at] {
            outcomes.push((at, outcome));
        }
        proof {
            let places = positions(results@, true, at as int);
            let next = positions(results@, true, at + 1);
            assert forall|k: int| 0 <= k < outcomes@.len() implies ({
                let place = next[k];
                (#[trigger] outcomes@[k]).0 == place && results@[place] is Ok && *outcomes@[k].1
                    == results@[place]->Ok_0
            }) by {
                if k < before.len() {
                    assert(outcomes@[k] == before[k]);
                    assert(next[k] == places[k]);
                }
            }
        }
        at = at + 1;
    }
    outcomes
}

/// Failures with their positions, in order.
pub fn indexed_failures<T, E>(results: &Vec<Result<T, E>>) -> (failures: Vec<(usize, &E)>)
    ensures
        failures@.len() == positions(results@, false, results@.len() as int).len(),
        forall|k: int|
            0 <= k < failures@.len() ==> {
                let at = positions(results@, false, results@.len() as int)[k];
                (#[trigger] failures@[k]).0 == at && results@[at] is Err && *failures@[k].1
                    == results@[at]->Err_0
            },
{
    let mut failures: Vec<(usize, &E)> = Vec::new();
    let mut at: usize = 0;
    while at < results.len()
        invariant
            at <= results@.len(),
            failures@.len() == positions(results@, false, at as int).len(),
            forall|k: int|
                0 <= k < failures@.len() ==> {
                    let place = positions(results@, false, at as int)[k];
                    (#[trigger] failures@[k]).0 == place && results@[place] is Err
                        && *failures@[k].1 == results@[place]->Err_0
                },
        decreases results.len() - at,
    {
        let ghost before = failures@;
        if let Err(error) = &results[at] {
            failures.push((at, error));
        }
        proof {
            let places = positions(results@, false, at as int);
            let next = positions(results@, false, at + 1);
            assert forall|k: int| 0 <= k < failures@.len() implies ({
                let place = next[k];
                (#[trigger] failures@[k]).0 == place && results@[place] is Err && *failures@[k].1
                    == results@[place]->Err_0
            }) by {
                if k < before.len() {
                    assert(failures@[k] == before[k]);
                    assert(next[k] == places[k]);
                }
            }
        }
        at = at + 1;
    }
    failures
}

/// Every result of a batch is either a success or a failure.
pub proof fn lemma_results_are_counted<T, E>(results: Seq<Result<T, E>>, upto: int)
    requires
        0 <= upto <= results.len(),
    ensures
        positions(results, true, upto).len() + positions(results, false, upto).len() == upto,
    decreases upto,
{
    if upto > 0 {
        lemma_results_are_counted(results, upto - 1);
    }
}

/// Whether every result is a success.
pub fn all_succeeded<T, E>(results: &Vec<Result<T, E>>) -> (all: bool)
    ensures
        all == forall|i: int| 0 <= i < results@.len() ==> (#[trigger] results@[i]) is Ok,
{
    let mut at: usize = 0;
    while at < results.len()
        invariant
            at <= results@.len(),
            forall|i: int| 0 <= i < at ==> (#[trigger] results@[i]) is Ok,
        decreases results.len() - at,
    {
        if results[at].is_err() {
            return false;
        }
        at = at + 1;
    }
    true
}

} // verus!

//! Laws of runs: how they are named and numbered, which one is compared with, and what the metadata
//! of a run must hold.

use vstd::prelude::*;
use vstd::utf8::encode_utf8;
use super::runs::{
    attempt_of, is_previous, metadata_fault, metadata_in, run_name, run_prefix, runs_before,
    short_hash, RunCandidate,
};
use crate::document::{member_of, DocumentView, ShapeView};
use crate::order::bytes_less;
use crate::text::{all_digits, digits_value, lemma_padded_digits, padded};

verus! {

/// A short hash is the beginning of a hash: seven characters, or all where there are fewer.
pub proof fn lemma_short_hashes(hash: Seq<char>)
    ensures
        short_hash(hash).is_prefix_of(hash),
        hash.len() >= 7 ==> short_hash(hash).len() == 7,
        hash.len() < 7 ==> short_hash(hash) == hash,
{
}

/// The name of a run consists of its timestamp, its commit and its number of at least four digits,
/// with dashes between them; a run without a commit is of an `unknown` one.
pub proof fn lemma_run_names(timestamp: Seq<char>, commit: Option<Seq<char>>, run_index: nat)
    ensures
        ({
            let number = padded(run_index);
            let shown = if commit is None || commit->0.len() == 0 {
                seq!['u', 'n', 'k', 'n', 'o', 'w', 'n']
            } else {
                commit->0
            };
            &&& run_name(timestamp, commit, run_index) == timestamp + seq!['-'] + shown + seq!['-']
                + number
            &&& all_digits(number)
            &&& digits_value(number) == run_index
            &&& number.len() >= 4
            &&& run_index <= 9999 ==> number.len() == 4
        }),
        ({
            let shown = match commit {
                Some(hash) => hash,
                None => seq!['u', 'n', 'k', 'n', 'o', 'w', 'n'],
            };
            run_prefix(timestamp, commit) == timestamp + seq!['-'] + shown + seq!['-']
        }),
{
    lemma_padded_digits(run_index);
    reveal_strlit("-");
    reveal_strlit("unknown");
    assert("-"@ =~= seq!['-']);
    assert("unknown"@ =~= seq!['u', 'n', 'k', 'n', 'o', 'w', 'n']);
}

/// A name tells an attempt exactly when four digits follow the prefix, and it tells their number.
pub proof fn lemma_attempts(name: Seq<u8>, prefix: Seq<char>)
    ensures
        attempt_of(name, prefix) is Some <==> {
            let at = encode_utf8(prefix).len() as int;
            &&& name.len() == at + 4
            &&& name.take(at) == encode_utf8(prefix)
            &&& forall|i: int| at <= i < at + 4 ==> 48 <= #[trigger] name[i] <= 57
        },
        attempt_of(name, prefix) matches Some(found) ==> {
            let at = encode_utf8(prefix).len() as int;
            found == (name[at] - 48) * 1000 + (name[at + 1] - 48) * 100 + (name[at + 2] - 48) * 10
                + (name[at + 3] - 48)
        },
{
    let start = encode_utf8(prefix);
    let at = start.len() as int;
    if attempt_of(name, prefix) is Some {
        let rest = name.skip(at);
        assert(name.take(at) =~= start);
        assert forall|i: int| at <= i < at + 4 implies 48 <= #[trigger] name[i] <= 57 by {
            assert(rest[i - at] == name[i]);
            assert(i - at == 0 || i - at == 1 || i - at == 2 || i - at == 3);
        }
    }
    if name.len() == at + 4 && name.take(at) == start && (forall|i: int|
        at <= i < at + 4 ==> 48 <= #[trigger] name[i] <= 57) {
        let rest = name.skip(at);
        assert(start.is_prefix_of(name));
        assert(rest.len() == 4);
        assert(48 <= name[at] <= 57 && 48 <= name[at + 1] <= 57 && 48 <= name[at + 2] <= 57 && 48
            <= name[at + 3] <= 57);
        assert(rest[0] == name[at] && rest[1] == name[at + 1] && rest[2] == name[at + 2] && rest[3]
            == name[at + 3]);
    }
}

/// A run is compared with only if its directory stands before the current one by name, its metadata
/// could be read, and it measured the same command where one is asked for.
pub proof fn lemma_previous_runs(
    candidate: RunCandidate,
    current: Seq<char>,
    command: Option<Seq<char>>,
)
    ensures
        is_previous(candidate, current, command) <==> {
            &&& bytes_less(encode_utf8(candidate.directory_name@), encode_utf8(current))
            &&& candidate.metadata is Some
            &&& command is None || (candidate.metadata->0.benchmark_command is Some
                && candidate.metadata->0.benchmark_command->0@ == command->0)
        },
{
}

/// Runs are ordered by their timestamps, and by the names of their directories where those agree.
pub proof fn lemma_order_of_runs(left: RunCandidate, right: RunCandidate)
    ensures
        ({
            let (a, b) = (left.metadata->0.timestamp@, right.metadata->0.timestamp@);
            &&& a == b ==> (runs_before(left, right) <==> bytes_less(
                encode_utf8(left.directory_name@),
                encode_utf8(right.directory_name@),
            ))
            &&& a != b ==> (runs_before(left, right) <==> bytes_less(
                encode_utf8(a),
                encode_utf8(b),
            ))
        }),
{
    crate::order::lemma_bytes_less_irreflexive(encode_utf8(left.metadata->0.timestamp@));
}

/// Whether a member of a document is a text.
pub open spec fn holds_text(document: DocumentView, key: Seq<char>) -> bool {
    member_of(document, key) matches Some(value) && value.shape is Text
}

/// Whether a member of a document is a text, nothing, or missing.
pub open spec fn may_hold_text(document: DocumentView, key: Seq<char>) -> bool {
    match member_of(document, key) {
        Some(value) => value.shape is Text || value.shape is Null,
        None => true,
    }
}

/// Whether a text is that of a member of a document.
pub open spec fn is_text_at(text: Seq<char>, document: DocumentView, key: Seq<char>) -> bool {
    member_of(document, key) matches Some(value) && value.shape == ShapeView::Text(text)
}

/// Whether an optional text is that of a member of a document, none where the member holds none.
pub open spec fn may_be_text_at(
    text: Option<Seq<char>>,
    document: DocumentView,
    key: Seq<char>,
) -> bool {
    match text {
        Some(found) => is_text_at(found, document, key),
        None => member_of(document, key) matches Some(value) ==> value.shape is Null,
    }
}

/// Metadata are accepted exactly when every required text and the number are there and no optional
/// text is of another kind; what is read is what the members hold.
pub proof fn lemma_accepted_metadata(document: DocumentView)
    ensures
        metadata_fault(document) is None <==> {
            &&& holds_text(document, "timestamp"@)
            &&& holds_text(document, "run_directory_name"@)
            &&& member_of(document, "run_index"@) matches Some(value) && (value.shape matches ShapeView::Number(
                Some(number),
            ) && number <= 4_294_967_295)
            &&& may_hold_text(document, "git_commit_hash"@)
            &&& may_hold_text(document, "git_commit_short_hash"@)
            &&& holds_text(document, "ic_testkit_version"@)
            &&& holds_text(document, "pocket_ic_version"@)
            &&& holds_text(document, "rustc_version"@)
            &&& may_hold_text(document, "benchmark_command"@)
            &&& may_hold_text(document, "selected_previous_run"@)
        },
        metadata_fault(document) is None ==> {
            let read = metadata_in(document);
            &&& is_text_at(read.timestamp, document, "timestamp"@)
            &&& is_text_at(read.run_directory_name, document, "run_directory_name"@)
            &&& member_of(document, "run_index"@)->0.shape == ShapeView::Number(
                Some(read.run_index as u64),
            )
            &&& may_be_text_at(read.git_commit_hash, document, "git_commit_hash"@)
            &&& may_be_text_at(read.git_commit_short_hash, document, "git_commit_short_hash"@)
            &&& is_text_at(read.ic_testkit_version, document, "ic_testkit_version"@)
            &&& is_text_at(read.pocket_ic_version, document, "pocket_ic_version"@)
            &&& is_text_at(read.rustc_version, document, "rustc_version"@)
            &&& may_be_text_at(read.benchmark_command, document, "benchmark_command"@)
            &&& may_be_text_at(read.selected_previous_run, document, "selected_previous_run"@)
        },
{
}

} // verus!

//! Run directories and run metadata.

use vstd::prelude::*;
use vstd::string::*;
use vstd::utf8::{encode_utf8, is_ascii_chars};
use crate::document::{
    holds_all, json_of, json_pretty, member_of, names_differ, pretty_json, read_json, scalar_views,
    Document, DocumentView, Scalar, ScalarMember, ScalarView, Shape, ShapeView,
};
use crate::order::{
    bytes_before, bytes_less, lemma_bytes_less_irreflexive, lemma_bytes_less_total,
    lemma_bytes_less_transitive,
};
use crate::paths::{join, joined};
use crate::text::{
    chars_of, digits_value, is_digit, lemma_encode_concat, lemma_padded_digits, padded, padded_text,
    starts_with_text, text_equal, text_of,
};
use crate::tree::byte_strings;

verus! {

/// What a run directory is called: when, which commit, which attempt.
pub open spec fn run_name(timestamp: Seq<char>, commit: Option<Seq<char>>, run_index: nat) -> Seq<char> {
    let shown = match commit {
        Some(hash) => if hash.len() > 0 {
            hash
        } else {
            "unknown"@
        },
        None => "unknown"@,
    };
    timestamp + "-"@ + shown + "-"@ + padded(run_index)
}

/// An optional text.
pub open spec fn optional_text(text: Option<&str>) -> Option<Seq<char>> {
    match text {
        Some(found) => Some(found@),
        None => None,
    }
}

/// An optional text.
pub open spec fn optional_string(text: Option<String>) -> Option<Seq<char>> {
    match text {
        Some(found) => Some(found@),
        None => None,
    }
}

/// What a run directory is called.
pub fn benchmark_run_directory_name(
    timestamp: &str,
    git_commit_short_hash: Option<&str>,
    run_index: u32,
) -> (name: String)
    ensures
        name@ == run_name(timestamp@, optional_text(git_commit_short_hash), run_index as nat),
{
    let commit = match git_commit_short_hash {
        Some(hash) => if hash.is_empty() {
            "unknown"
        } else {
            hash
        },
        None => "unknown",
    };
    let mut name = timestamp.to_owned();
    name.append("-");
    name.append(commit);
    name.append("-");
    name.append(padded_text(run_index as u128).as_str());
    name
}

/// The first seven characters of a commit hash.
pub open spec fn short_hash(hash: Seq<char>) -> Seq<char> {
    if hash.len() <= 7 {
        hash
    } else {
        hash.take(7)
    }
}

/// The first seven characters of a commit hash.
pub fn short_commit_hash(hash: &str) -> (short: String)
    ensures
        short@ == short_hash(hash@),
{
    let chars = chars_of(hash);
    if chars.len() <= 7 {
        return hash.to_owned();
    }
    let kept = vstd::slice::slice_subrange(chars.as_slice(), 0, 7);
    assert(kept@ =~= hash@.take(7));
    text_of(kept)
}

/// What the names of all attempts of one moment and commit start with.
pub open spec fn run_prefix(timestamp: Seq<char>, commit: Option<Seq<char>>) -> Seq<char> {
    timestamp + "-"@ + (match commit {
        Some(hash) => hash,
        None => "unknown"@,
    }) + "-"@
}

/// Whether a byte is an ASCII digit.
pub open spec fn is_digit_byte(byte: u8) -> bool {
    48 <= byte <= 57
}

/// Value of four ASCII digits.
pub open spec fn four_digits(bytes: Seq<u8>) -> nat {
    ((bytes[0] - 48) * 1000 + (bytes[1] - 48) * 100 + (bytes[2] - 48) * 10 + (bytes[3]
        - 48)) as nat
}

/// The attempt that a directory name tells: the prefix, then exactly four digits.
pub open spec fn attempt_of(name: Seq<u8>, prefix: Seq<char>) -> Option<nat> {
    let start = encode_utf8(prefix);
    let rest = name.skip(start.len() as int);
    if start.is_prefix_of(name) && rest.len() == 4 && is_digit_byte(rest[0]) && is_digit_byte(
        rest[1],
    ) && is_digit_byte(rest[2]) && is_digit_byte(rest[3]) {
        Some(four_digits(rest))
    } else {
        None
    }
}

/// The attempt that a directory name tells.
pub fn run_index_from_directory_name(name: &[u8], prefix: &str) -> (index: Option<u32>)
    ensures
        match (index, attempt_of(name@, prefix@)) {
            (Some(found), Some(expected)) => found == expected,
            (None, None) => true,
            _ => false,
        },
{
    let start = prefix.as_bytes().len();
    if !starts_with_text(name, prefix) || name.len() - start != 4 {
        assert(encode_utf8(prefix@).is_prefix_of(name@) ==> name@.skip(start as int).len()
            == name@.len() - start);
        return None;
    }
    let ghost rest = name@.skip(start as int);
    let a = name[start];
    let b = name[start + 1];
    let c = name[start + 2];
    let d = name[start + 3];
    assert(rest[0] == a && rest[1] == b && rest[2] == c && rest[3] == d);
    if a < 48 || a > 57 || b < 48 || b > 57 || c < 48 || c > 57 || d < 48 || d > 57 {
        return None;
    }
    Some(
        (a - 48) as u32 * 1000 + (b - 48) as u32 * 100 + (c - 48) as u32 * 10 + (d - 48) as u32,
    )
}

/// The highest attempt among the first `upto` directory names, or zero.
pub open spec fn highest_attempt(names: Seq<Seq<u8>>, prefix: Seq<char>, upto: int) -> nat
    decreases upto,
{
    if upto <= 0 {
        0
    } else {
        let before = highest_attempt(names, prefix, upto - 1);
        match attempt_of(names[upto - 1], prefix) {
            Some(index) => if index > before {
                index
            } else {
                before
            },
            None => before,
        }
    }
}

/// The attempt after all those that directory names tell.
pub fn next_run_index(names: &Vec<Vec<u8>>, prefix: &str) -> (index: u32)
    ensures
        index == highest_attempt(byte_strings(names@), prefix@, names@.len() as int) + 1,
{
    let ghost all = byte_strings(names@);
    let mut highest: u32 = 0;
    let mut at: usize = 0;
    while at < names.len()
        invariant
            at <= names@.len(),
            all == byte_strings(names@),
            highest == highest_attempt(all, prefix@, at as int),
            highest <= 9999,
        decreases names.len() - at,
    {
        assert(all[at as int] == names@[at as int]@);
        if let Some(index) = run_index_from_directory_name(names[at].as_slice(), prefix) {
            if index > highest {
                highest = index;
            }
        }
        at = at + 1;
    }
    highest + 1
}

/// A directory for the next run.
#[derive(Clone, Debug)]
pub struct BenchmarkRunDirectory {
    /// Path of the directory.
    pub path: Vec<u8>,
    /// Name of the directory.
    pub directory_name: String,
    /// Number of the attempt.
    pub run_index: u32,
    /// Commit of the run.
    pub git_commit_hash: Option<String>,
    /// First characters of the commit of the run.
    pub git_commit_short_hash: Option<String>,
}

/// The directory for the next run below `runs_root`.
///
/// `names` are the names of the directories that are there. The directory is
/// not reserved.
pub fn next_benchmark_run_directory(
    runs_root: &[u8],
    timestamp: &str,
    git_commit_hash: Option<&str>,
    names: &Vec<Vec<u8>>,
) -> (directory: BenchmarkRunDirectory)
    ensures
        ({
            let commit = match git_commit_hash {
                Some(hash) => Some(short_hash(hash@)),
                None => None,
            };
            &&& directory.run_index == highest_attempt(
                byte_strings(names@),
                run_prefix(timestamp@, commit),
                names@.len() as int,
            ) + 1
            &&& directory.directory_name@ == run_name(
                timestamp@,
                commit,
                directory.run_index as nat,
            )
            &&& directory.path@ == joined(runs_root@, encode_utf8(directory.directory_name@))
            &&& optional_string(directory.git_commit_hash) == optional_text(git_commit_hash)
            &&& optional_string(directory.git_commit_short_hash) == commit
        }),
{
    let git_commit_short_hash = match git_commit_hash {
        Some(hash) => Some(short_commit_hash(hash)),
        None => None,
    };
    let mut prefix = timestamp.to_owned();
    prefix.append("-");
    match &git_commit_short_hash {
        Some(hash) => prefix.append(hash.as_str()),
        None => prefix.append("unknown"),
    }
    prefix.append("-");
    let run_index = next_run_index(names, prefix.as_str());
    let directory_name = match &git_commit_short_hash {
        Some(hash) => benchmark_run_directory_name(timestamp, Some(hash.as_str()), run_index),
        None => benchmark_run_directory_name(timestamp, None, run_index),
    };
    let full_hash = match git_commit_hash {
        Some(hash) => Some(hash.to_owned()),
        None => None,
    };
    BenchmarkRunDirectory {
        path: join(runs_root, directory_name.as_str().as_bytes()),
        directory_name,
        run_index,
        git_commit_hash: full_hash,
        git_commit_short_hash,
    }
}

/// Whether one of the first `upto` names tells this attempt.
pub open spec fn tells_attempt(
    names: Seq<Seq<u8>>,
    prefix: Seq<char>,
    upto: int,
    index: nat,
) -> bool {
    exists|i: int| 0 <= i < upto && #[trigger] attempt_of(names[i], prefix) == Some(index)
}

/// The highest attempt is the greatest one that the names tell, or zero where they tell none.
pub proof fn lemma_highest_attempt_is_greatest(names: Seq<Seq<u8>>, prefix: Seq<char>, upto: int)
    requires
        0 <= upto <= names.len(),
    ensures
        forall|i: int|
            0 <= i < upto ==> (#[trigger] attempt_of(names[i], prefix) matches Some(index)
                ==> index <= highest_attempt(names, prefix, upto)),
        highest_attempt(names, prefix, upto) == 0 || tells_attempt(
            names,
            prefix,
            upto,
            highest_attempt(names, prefix, upto),
        ),
    decreases upto,
{
    if upto > 0 {
        lemma_highest_attempt_is_greatest(names, prefix, upto - 1);
        let before = highest_attempt(names, prefix, upto - 1);
        let highest = highest_attempt(names, prefix, upto);
        if highest > 0 {
            if highest == before {
                let i = choose|i: int|
                    0 <= i < upto - 1 && #[trigger] attempt_of(names[i], prefix) == Some(before);
                assert(attempt_of(names[i], prefix) == Some(highest));
            } else {
                assert(attempt_of(names[upto - 1], prefix) == Some(highest));
            }
        }
    }
}

proof fn lemma_four_digits(value: nat)
    requires
        value <= 9999,
    ensures
        ({
            let bytes = encode_utf8(padded(value));
            &&& bytes.len() == 4
            &&& is_digit_byte(bytes[0])
            &&& is_digit_byte(bytes[1])
            &&& is_digit_byte(bytes[2])
            &&& is_digit_byte(bytes[3])
            &&& four_digits(bytes) == value
        }),
{
    lemma_padded_digits(value);
    let text = padded(value);
    assert(is_digit(text[0]) && is_digit(text[1]) && is_digit(text[2]) && is_digit(text[3]));
    assert(is_ascii_chars(text));
    vstd::utf8::is_ascii_chars_encode_utf8(text);
    let bytes = encode_utf8(text);
    assert(bytes[0] == text[0] as u8 && bytes[1] == text[1] as u8 && bytes[2] == text[2] as u8
        && bytes[3] == text[3] as u8);
    let t3 = text.drop_last();
    let t2 = t3.drop_last();
    let t1 = t2.drop_last();
    let t0 = t1.drop_last();
    assert(t0 =~= Seq::<char>::empty());
    assert(digits_value(t0) == 0);
    assert(digits_value(t1) == text[0] as int - 48);
    assert(digits_value(t2) == digits_value(t1) * 10 + (text[1] as int - 48));
    assert(digits_value(t3) == digits_value(t2) * 10 + (text[2] as int - 48));
    assert(digits_value(text) == digits_value(t3) * 10 + (text[3] as int - 48));
}

/// The name of the next run is new, as long as an attempt has four digits.
///
/// An empty commit hash is left out: its attempts are counted under another
/// prefix than the one they are named with.
pub proof fn lemma_next_run_is_new(
    timestamp: Seq<char>,
    commit: Option<Seq<char>>,
    names: Seq<Seq<u8>>,
    at: int,
)
    requires
        commit matches Some(hash) ==> hash.len() > 0,
        0 <= at < names.len(),
        highest_attempt(names, run_prefix(timestamp, commit), names.len() as int) < 9999,
    ensures
        ({
            let next = highest_attempt(names, run_prefix(timestamp, commit), names.len() as int)
                + 1;
            names[at] != encode_utf8(run_name(timestamp, commit, next))
        }),
{
    let prefix = run_prefix(timestamp, commit);
    let next = highest_attempt(names, prefix, names.len() as int) + 1;
    let name = run_name(timestamp, commit, next);
    assert(name =~= prefix + padded(next));
    lemma_encode_concat(prefix, padded(next));
    lemma_four_digits(next);
    let bytes = encode_utf8(name);
    let start = encode_utf8(prefix);
    assert(bytes.skip(start.len() as int) =~= encode_utf8(padded(next)));
    assert(bytes.take(start.len() as int) =~= start);
    assert(attempt_of(bytes, prefix) == Some(next));
    lemma_highest_attempt_is_greatest(names, prefix, names.len() as int);
    assert(attempt_of(names[at], prefix) != Some(next));
}

/// What is recorded about a run.
#[derive(Clone, Debug)]
pub struct BenchmarkRunMetadata {
    /// When the run started.
    pub timestamp: String,
    /// Name of the run directory.
    pub run_directory_name: String,
    /// Number of the attempt.
    pub run_index: u32,
    /// Commit of the run.
    pub git_commit_hash: Option<String>,
    /// First characters of the commit of the run.
    pub git_commit_short_hash: Option<String>,
    /// Version of this crate.
    pub ic_testkit_version: String,
    /// Version of the PocketIC server.
    pub pocket_ic_version: String,
    /// Version of the Rust compiler.
    pub rustc_version: String,
    /// Command that was measured.
    pub benchmark_command: Option<String>,
    /// Run that was compared with.
    pub selected_previous_run: Option<String>,
}

/// What the metadata of a run says.
pub struct MetadataView {
    /// When the run started.
    pub timestamp: Seq<char>,
    /// Name of the run directory.
    pub run_directory_name: Seq<char>,
    /// Number of the attempt.
    pub run_index: int,
    /// Commit of the run.
    pub git_commit_hash: Option<Seq<char>>,
    /// First characters of the commit of the run.
    pub git_commit_short_hash: Option<Seq<char>>,
    /// Version of this crate.
    pub ic_testkit_version: Seq<char>,
    /// Version of the PocketIC server.
    pub pocket_ic_version: Seq<char>,
    /// Version of the Rust compiler.
    pub rustc_version: Seq<char>,
    /// Command that was measured.
    pub benchmark_command: Option<Seq<char>>,
    /// Run that was compared with.
    pub selected_previous_run: Option<Seq<char>>,
}

impl View for BenchmarkRunMetadata {
    type V = MetadataView;

    open spec fn view(&self) -> MetadataView {
        MetadataView {
            timestamp: self.timestamp@,
            run_directory_name: self.run_directory_name@,
            run_index: self.run_index as int,
            git_commit_hash: optional_string(self.git_commit_hash),
            git_commit_short_hash: optional_string(self.git_commit_short_hash),
            ic_testkit_version: self.ic_testkit_version@,
            pocket_ic_version: self.pocket_ic_version@,
            rustc_version: self.rustc_version@,
            benchmark_command: optional_string(self.benchmark_command),
            selected_previous_run: optional_string(self.selected_previous_run),
        }
    }
}

/// A text under a name.
pub open spec fn named_text(name: Seq<char>, text: Seq<char>) -> ScalarView {
    ScalarView { name, shape: ShapeView::Text(text) }
}

/// An optional text under a name.
pub open spec fn named_optional(name: Seq<char>, text: Option<Seq<char>>) -> ScalarView {
    ScalarView {
        name,
        shape: match text {
            Some(found) => ShapeView::Text(found),
            None => ShapeView::Null,
        },
    }
}

/// The metadata of a run as named values.
pub open spec fn metadata_members(metadata: MetadataView) -> Seq<ScalarView> {
    seq![
        named_text("timestamp"@, metadata.timestamp),
        named_text("run_directory_name"@, metadata.run_directory_name),
        ScalarView {
            name: "run_index"@,
            shape: ShapeView::Number(Some(metadata.run_index as u64)),
        },
        named_optional("git_commit_hash"@, metadata.git_commit_hash),
        named_optional("git_commit_short_hash"@, metadata.git_commit_short_hash),
        named_text("ic_testkit_version"@, metadata.ic_testkit_version),
        named_text("pocket_ic_version"@, metadata.pocket_ic_version),
        named_text("rustc_version"@, metadata.rustc_version),
        named_optional("benchmark_command"@, metadata.benchmark_command),
        named_optional("selected_previous_run"@, metadata.selected_previous_run),
    ]
}

fn text_member(name: &str, text: &str) -> (member: ScalarMember)
    ensures
        member@ == named_text(name@, text@),
{
    ScalarMember { name: name.to_owned(), value: Scalar::Text(text.to_owned()) }
}

fn optional_member(name: &str, text: &Option<String>) -> (member: ScalarMember)
    ensures
        member@ == named_optional(name@, optional_string(*text)),
{
    match text {
        Some(found) => ScalarMember {
            name: name.to_owned(),
            value: Scalar::Text(found.clone()),
        },
        None => ScalarMember { name: name.to_owned(), value: Scalar::Null },
    }
}

proof fn lemma_metadata_names_differ(metadata: MetadataView)
    ensures
        names_differ(metadata_members(metadata)),
{
    reveal_strlit("timestamp");
    reveal_strlit("run_directory_name");
    reveal_strlit("run_index");
    reveal_strlit("git_commit_hash");
    reveal_strlit("git_commit_short_hash");
    reveal_strlit("ic_testkit_version");
    reveal_strlit("pocket_ic_version");
    reveal_strlit("rustc_version");
    reveal_strlit("benchmark_command");
    reveal_strlit("selected_previous_run");
    assert("timestamp"@[0] == 't' && "run_index"@[0] == 'r');
    assert("run_directory_name"@[0] == 'r' && "ic_testkit_version"@[0] == 'i');
    assert("git_commit_short_hash"@[0] == 'g' && "selected_previous_run"@[0] == 's');
    let members = metadata_members(metadata);
    assert(members[0].name.len() == 9);
    assert(members[1].name.len() == 18);
    assert(members[2].name.len() == 9);
    assert(members[3].name.len() == 15);
    assert(members[4].name.len() == 21);
    assert(members[5].name.len() == 18);
    assert(members[6].name.len() == 17);
    assert(members[7].name.len() == 13);
    assert(members[8].name.len() == 17);
    assert(members[9].name.len() == 21);
    assert(members[6].name[0] == 'p');
    assert(members[8].name[0] == 'b');
}

/// The metadata of a run as JSON text.
pub fn metadata_json(metadata: &BenchmarkRunMetadata) -> (text: String)
    ensures
        text@ == pretty_json(metadata_members(metadata@)).push('\n'),
        json_of(encode_utf8(text@)) matches Ok(document) && holds_all(
            document,
            metadata_members(metadata@),
        ),
{
    let mut members: Vec<ScalarMember> = Vec::new();
    members.push(text_member("timestamp", metadata.timestamp.as_str()));
    members.push(text_member("run_directory_name", metadata.run_directory_name.as_str()));
    members.push(
        ScalarMember {
            name: "run_index".to_owned(),
            value: Scalar::Number(metadata.run_index),
        },
    );
    members.push(optional_member("git_commit_hash", &metadata.git_commit_hash));
    members.push(optional_member("git_commit_short_hash", &metadata.git_commit_short_hash));
    members.push(text_member("ic_testkit_version", metadata.ic_testkit_version.as_str()));
    members.push(text_member("pocket_ic_version", metadata.pocket_ic_version.as_str()));
    members.push(text_member("rustc_version", metadata.rustc_version.as_str()));
    members.push(optional_member("benchmark_command", &metadata.benchmark_command));
    members.push(optional_member("selected_previous_run", &metadata.selected_previous_run));
    proof {
        assert(scalar_views(members@) =~= metadata_members(metadata@));
        lemma_metadata_names_differ(metadata@);
    }
    let mut text = json_pretty(members);
    text.push('\n');
    text
}

/// The optional text called `key`, or why there is none.
pub open spec fn optional_field(document: DocumentView, key: Seq<char>) -> Result<
    Option<Seq<char>>,
    Seq<char>,
> {
    match member_of(document, key) {
        None => Ok(None),
        Some(value) => match value.shape {
            ShapeView::Null => Ok(None),
            ShapeView::Text(text) => Ok(Some(text)),
            _ => Err("metadata string field `"@ + key + "` is not a string or null"@),
        },
    }
}

/// The text called `key`, or why there is none.
pub open spec fn required_field(document: DocumentView, key: Seq<char>) -> Result<
    Seq<char>,
    Seq<char>,
> {
    match optional_field(document, key) {
        Err(reason) => Err(reason),
        Ok(Some(text)) => Ok(text),
        Ok(None) => Err("missing required metadata string field `"@ + key + "`"@),
    }
}

/// The number called `key`, or why there is none.
pub open spec fn number_field(document: DocumentView, key: Seq<char>) -> Result<int, Seq<char>> {
    match member_of(document, key) {
        Some(value) => match value.shape {
            ShapeView::Number(Some(number)) => if number <= u32::MAX {
                Ok(number as int)
            } else {
                Err(
                    "metadata integer field `"@ + key
                        + "` is invalid: out of range integral type conversion attempted"@,
                )
            },
            _ => Err("missing required metadata integer field `"@ + key + "`"@),
        },
        None => Err("missing required metadata integer field `"@ + key + "`"@),
    }
}

/// The reason of a failure, if it is one.
pub open spec fn fault<T>(result: Result<T, Seq<char>>) -> Option<Seq<char>> {
    match result {
        Ok(_) => None,
        Err(reason) => Some(reason),
    }
}

/// The first of two reasons.
pub open spec fn first_reason(first: Option<Seq<char>>, second: Option<Seq<char>>) -> Option<Seq<char>> {
    match first {
        Some(_) => first,
        None => second,
    }
}

/// What is wrong with a metadata document: the first field that cannot be read.
pub open spec fn metadata_fault(document: DocumentView) -> Option<Seq<char>> {
    first_reason(
        fault(required_field(document, "timestamp"@)),
        first_reason(
            fault(required_field(document, "run_directory_name"@)),
            first_reason(
                fault(number_field(document, "run_index"@)),
                first_reason(
                    fault(optional_field(document, "git_commit_hash"@)),
                    first_reason(
                        fault(optional_field(document, "git_commit_short_hash"@)),
                        first_reason(
                            fault(required_field(document, "ic_testkit_version"@)),
                            first_reason(
                                fault(required_field(document, "pocket_ic_version"@)),
                                first_reason(
                                    fault(required_field(document, "rustc_version"@)),
                                    first_reason(
                                        fault(optional_field(document, "benchmark_command"@)),
                                        fault(
                                            optional_field(document, "selected_previous_run"@),
                                        ),
                                    ),
                                ),
                            ),
                        ),
                    ),
                ),
            ),
        ),
    )
}

/// What a metadata document says.
pub open spec fn metadata_in(document: DocumentView) -> MetadataView {
    MetadataView {
        timestamp: required_field(document, "timestamp"@)->Ok_0,
        run_directory_name: required_field(document, "run_directory_name"@)->Ok_0,
        run_index: number_field(document, "run_index"@)->Ok_0,
        git_commit_hash: optional_field(document, "git_commit_hash"@)->Ok_0,
        git_commit_short_hash: optional_field(document, "git_commit_short_hash"@)->Ok_0,
        ic_testkit_version: required_field(document, "ic_testkit_version"@)->Ok_0,
        pocket_ic_version: required_field(document, "pocket_ic_version"@)->Ok_0,
        rustc_version: required_field(document, "rustc_version"@)->Ok_0,
        benchmark_command: optional_field(document, "benchmark_command"@)->Ok_0,
        selected_previous_run: optional_field(document, "selected_previous_run"@)->Ok_0,
    }
}

fn quoted(before: &str, key: &str, after: &str) -> (text: String)
    ensures
        text@ == before@ + key@ + after@,
{
    let mut text = before.to_owned();
    text.append(key);
    text.append(after);
    text
}

fn metadata_optional_string(document: &Document, key: &str) -> (result: Result<
    Option<String>,
    String,
>)
    ensures
        match (result, optional_field(document@, key@)) {
            (Ok(text), Ok(expected)) => optional_string(text) == expected,
            (Err(reason), Err(expected)) => reason@ == expected,
            _ => false,
        },
{
    match document.get(key) {
        None => Ok(None),
        Some(value) => match &value.shape {
            Shape::Null => Ok(None),
            Shape::Text(text) => Ok(Some(text.clone())),
            _ => Err(quoted("metadata string field `", key, "` is not a string or null")),
        },
    }
}

fn metadata_required_string(document: &Document, key: &str) -> (result: Result<String, String>)
    ensures
        match (result, required_field(document@, key@)) {
            (Ok(text), Ok(expected)) => text@ == expected,
            (Err(reason), Err(expected)) => reason@ == expected,
            _ => false,
        },
{
    match metadata_optional_string(document, key)? {
        Some(text) => Ok(text),
        None => Err(quoted("missing required metadata string field `", key, "`")),
    }
}

fn metadata_required_u32(document: &Document, key: &str) -> (result: Result<u32, String>)
    ensures
        match (result, number_field(document@, key@)) {
            (Ok(number), Ok(expected)) => number == expected,
            (Err(reason), Err(expected)) => reason@ == expected,
            _ => false,
        },
{
    match document.get(key) {
        Some(value) => match &value.shape {
            Shape::Number(Some(number)) => {
                if *number <= u32::MAX as u64 {
                    Ok(*number as u32)
                } else {
                    Err(
                        quoted(
                            "metadata integer field `",
                            key,
                            "` is invalid: out of range integral type conversion attempted",
                        ),
                    )
                }
            },
            _ => Err(quoted("missing required metadata integer field `", key, "`")),
        },
        None => Err(quoted("missing required metadata integer field `", key, "`")),
    }
}

/// Read the metadata of a run out of a document.
pub fn metadata_of_document(document: &Document) -> (result: Result<BenchmarkRunMetadata, String>)
    ensures
        match (result, metadata_fault(document@)) {
            (Ok(metadata), None) => metadata@ == metadata_in(document@),
            (Err(reason), Some(expected)) => reason@ == expected,
            _ => false,
        },
{
    let timestamp = metadata_required_string(document, "timestamp")?;
    let run_directory_name = metadata_required_string(document, "run_directory_name")?;
    let run_index = metadata_required_u32(document, "run_index")?;
    let git_commit_hash = metadata_optional_string(document, "git_commit_hash")?;
    let git_commit_short_hash = metadata_optional_string(document, "git_commit_short_hash")?;
    let ic_testkit_version = metadata_required_string(document, "ic_testkit_version")?;
    let pocket_ic_version = metadata_required_string(document, "pocket_ic_version")?;
    let rustc_version = metadata_required_string(document, "rustc_version")?;
    let benchmark_command = metadata_optional_string(document, "benchmark_command")?;
    let selected_previous_run = metadata_optional_string(document, "selected_previous_run")?;
    Ok(
        BenchmarkRunMetadata {
            timestamp,
            run_directory_name,
            run_index,
            git_commit_hash,
            git_commit_short_hash,
            ic_testkit_version,
            pocket_ic_version,
            rustc_version,
            benchmark_command,
            selected_previous_run,
        },
    )
}

/// Read the metadata of a run out of JSON text.
pub fn read_benchmark_run_metadata(input: &str) -> (result: Result<BenchmarkRunMetadata, String>)
    ensures
        match json_of(encode_utf8(input@)) {
            Err(cause) => result matches Err(reason) && reason@
                == "invalid benchmark metadata JSON: "@ + cause,
            Ok(document) => match (result, metadata_fault(document)) {
                (Ok(metadata), None) => metadata@ == metadata_in(document),
                (Err(reason), Some(expected)) => reason@ == expected,
                _ => false,
            },
        },
{
    match read_json(input.as_bytes()) {
        Err(cause) => {
            let mut reason = "invalid benchmark metadata JSON: ".to_owned();
            reason.append(cause.as_str());
            Err(reason)
        },
        Ok(document) => metadata_of_document(&document),
    }
}

/// Metadata is read back as it was written.
pub proof fn lemma_metadata_round_trip(metadata: MetadataView, document: DocumentView)
    requires
        0 <= metadata.run_index <= u32::MAX,
        holds_all(document, metadata_members(metadata)),
    ensures
        metadata_fault(document) is None,
        metadata_in(document) == metadata,
{
    let members = metadata_members(metadata);
    assert(members[0].name == "timestamp"@);
    assert(members[1].name == "run_directory_name"@);
    assert(members[2].name == "run_index"@);
    assert(members[3].name == "git_commit_hash"@);
    assert(members[4].name == "git_commit_short_hash"@);
    assert(members[5].name == "ic_testkit_version"@);
    assert(members[6].name == "pocket_ic_version"@);
    assert(members[7].name == "rustc_version"@);
    assert(members[8].name == "benchmark_command"@);
    assert(members[9].name == "selected_previous_run"@);
}

/// A directory that may hold a previous run.
#[derive(Debug)]
pub struct RunCandidate {
    /// Name of the directory.
    pub directory_name: String,
    /// Its metadata, when that can be read.
    pub metadata: Option<BenchmarkRunMetadata>,
}

/// Whether a directory holds a run before the current one that measured the same command.
pub open spec fn is_previous(
    candidate: RunCandidate,
    current: Seq<char>,
    command: Option<Seq<char>>,
) -> bool {
    &&& bytes_less(encode_utf8(candidate.directory_name@), encode_utf8(current))
    &&& candidate.metadata matches Some(metadata) && (command matches Some(expected)
        ==> optional_string(metadata.benchmark_command) == Some(expected))
}

/// Whether a run stands before another: by timestamp, then by directory name.
pub open spec fn runs_before(left: RunCandidate, right: RunCandidate) -> bool {
    let (a, b) = (left.metadata->0.timestamp@, right.metadata->0.timestamp@);
    ||| bytes_less(encode_utf8(a), encode_utf8(b))
    ||| a == b && bytes_less(
        encode_utf8(left.directory_name@),
        encode_utf8(right.directory_name@),
    )
}

/// The latest previous run among the first `upto` candidates; of equal ones the last.
pub open spec fn latest_of(
    candidates: Seq<RunCandidate>,
    current: Seq<char>,
    command: Option<Seq<char>>,
    upto: int,
) -> Option<int>
    decreases upto,
{
    if upto <= 0 {
        None
    } else {
        let before = latest_of(candidates, current, command, upto - 1);
        if !is_previous(candidates[upto - 1], current, command) {
            before
        } else {
            match before {
                Some(at) => if runs_before(candidates[upto - 1], candidates[at]) {
                    before
                } else {
                    Some(upto - 1)
                },
                None => Some(upto - 1),
            }
        }
    }
}

proof fn lemma_run_order(first: RunCandidate, second: RunCandidate, third: RunCandidate)
    ensures
        runs_before(first, third) ==> runs_before(first, second) || runs_before(second, third),
        !(runs_before(first, second) && runs_before(second, first)),
{
    let (a, b, c) = (
        first.metadata->0.timestamp@,
        second.metadata->0.timestamp@,
        third.metadata->0.timestamp@,
    );
    let (x, y, z) = (first.directory_name@, second.directory_name@, third.directory_name@);
    lemma_text_order(a, b, c);
    lemma_text_order(x, y, z);
    lemma_text_order(b, c, a);
    lemma_text_order(y, z, x);
}

proof fn lemma_text_order(first: Seq<char>, second: Seq<char>, third: Seq<char>)
    ensures
        bytes_less(encode_utf8(first), encode_utf8(second)) || bytes_less(
            encode_utf8(second),
            encode_utf8(first),
        ) || first == second,
        !(bytes_less(encode_utf8(first), encode_utf8(second)) && bytes_less(
            encode_utf8(second),
            encode_utf8(first),
        )),
        !bytes_less(encode_utf8(first), encode_utf8(first)),
        bytes_less(encode_utf8(first), encode_utf8(third)) ==> bytes_less(
            encode_utf8(first),
            encode_utf8(second),
        ) || bytes_less(encode_utf8(second), encode_utf8(third)),
{
    broadcast use vstd::utf8::encode_utf8_decode_utf8;

    let (a, b, c) = (encode_utf8(first), encode_utf8(second), encode_utf8(third));
    assert(vstd::utf8::decode_utf8(a) == first);
    assert(vstd::utf8::decode_utf8(b) == second);
    lemma_bytes_less_total(a, b);
    lemma_bytes_less_total(b, c);
    lemma_bytes_less_irreflexive(a);
    if bytes_less(a, c) && bytes_less(b, a) {
        lemma_bytes_less_transitive(b, a, c);
    }
}

/// The latest previous run is one that no other previous run stands behind; of equal ones it is
/// the last. There is none only where no candidate is a previous run.
pub proof fn lemma_latest_is_latest(
    candidates: Seq<RunCandidate>,
    current: Seq<char>,
    command: Option<Seq<char>>,
    upto: int,
)
    requires
        0 <= upto <= candidates.len(),
    ensures
        match latest_of(candidates, current, command, upto) {
            None => forall|i: int|
                0 <= i < upto ==> !is_previous(#[trigger] candidates[i], current, command),
            Some(at) => {
                &&& 0 <= at < upto
                &&& is_previous(candidates[at], current, command)
                &&& forall|i: int|
                    0 <= i < upto && is_previous(#[trigger] candidates[i], current, command)
                        ==> !runs_before(candidates[at], candidates[i]) && (i > at ==> runs_before(
                        candidates[i],
                        candidates[at],
                    ))
            },
        },
    decreases upto,
{
    if upto > 0 {
        lemma_latest_is_latest(candidates, current, command, upto - 1);
        let before = latest_of(candidates, current, command, upto - 1);
        let added = candidates[upto - 1];
        if is_previous(added, current, command) && before is Some {
            let kept = candidates[before->0];
            assert forall|i: int|
                0 <= i < upto && is_previous(#[trigger] candidates[i], current, command) implies {
                &&& runs_before(added, kept) ==> !runs_before(kept, candidates[i])
                &&& !runs_before(added, kept) ==> !runs_before(added, candidates[i])
            } by {
                lemma_run_order(kept, added, candidates[i]);
                lemma_run_order(added, kept, candidates[i]);
                lemma_run_order(added, added, added);
            }
        } else if is_previous(added, current, command) {
            lemma_run_order(added, added, added);
        }
    }
}

fn previous(candidate: &RunCandidate, current: &str, command: Option<&str>) -> (yes: bool)
    ensures
        yes == is_previous(*candidate, current@, optional_text(command)),
{
    if !bytes_before(candidate.directory_name.as_str().as_bytes(), current.as_bytes()) {
        return false;
    }
    match &candidate.metadata {
        None => false,
        Some(metadata) => match command {
            None => true,
            Some(expected) => match &metadata.benchmark_command {
                Some(found) => text_equal(found.as_str(), expected),
                None => false,
            },
        },
    }
}

/// The latest previous run that measured the same command.
pub fn find_latest_previous_run(
    candidates: &Vec<RunCandidate>,
    current_run_directory_name: &str,
    benchmark_command: Option<&str>,
) -> (found: Option<usize>)
    ensures
        match (
            found,
            latest_of(
                candidates@,
                current_run_directory_name@,
                optional_text(benchmark_command),
                candidates@.len() as int,
            ),
        ) {
            (Some(at), Some(expected)) => at == expected && at < candidates@.len(),
            (None, None) => true,
            _ => false,
        },
{
    let ghost command = optional_text(benchmark_command);
    let mut found: Option<usize> = None;
    let mut at: usize = 0;
    while at < candidates.len()
        invariant
            at <= candidates@.len(),
            command == optional_text(benchmark_command),
            match (
                found,
                latest_of(candidates@, current_run_directory_name@, command, at as int),
            ) {
                (Some(place), Some(expected)) => place == expected && place < at && is_previous(
                    candidates@[place as int],
                    current_run_directory_name@,
                    command,
                ),
                (None, None) => true,
                _ => false,
            },
        decreases candidates.len() - at,
    {
        let candidate = &candidates[at];
        if previous(candidate, current_run_directory_name, benchmark_command) {
            let keep = match found {
                None => false,
                Some(place) => {
                    let best = &candidates[place];
                    match (&candidate.metadata, &best.metadata) {
                        (Some(left), Some(right)) => {
                            let a = left.timestamp.as_str();
                            let b = right.timestamp.as_str();
                            bytes_before(a.as_bytes(), b.as_bytes()) || (text_equal(a, b)
                                && bytes_before(
                                candidate.directory_name.as_str().as_bytes(),
                                best.directory_name.as_str().as_bytes(),
                            ))
                        },
                        _ => false,
                    }
                },
            };
            if !keep {
                found = Some(at);
            }
        }
        at = at + 1;
    }
    found
}

} // verus!

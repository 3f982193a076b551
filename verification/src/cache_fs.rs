//! Retention of content-addressed cache entries and the small files that coordinate it.

use vstd::prelude::*;
use vstd::string::*;
use vstd::utf8::encode_utf8;
use crate::order::{insert_ranked, ranked, sort_ranked, Ranked};
use crate::numbers::plain_sum;
use crate::paths::{components, join, joined, path_before, path_less, paths_equal, same_path};
use crate::settings::copy_bytes;
use crate::text::{
    chars_of, decimal, decimal_text, decimal_value, has_prefix, is_digit, lemma_decimal_digits,
    lemma_decimal_injective, lemma_decimal_round_trip, parse_decimal, text_equal,
};
use crate::timing::{lemma_length_determines_span, Duration, Timestamp};
use crate::tree::byte_strings;

verus! {

/// Contents of a cache directory tag.
pub const CACHE_DIRECTORY_TAG: &'static str =
    "Signature: 8a477f597d28d172789f06886806bc55\n# This file is a cache directory tag created by ic-testkit.\n# For information about cache directory tags see https://bford.info/cachedir/\n";

/// How every valid cache directory tag starts.
pub const CACHE_DIRECTORY_TAG_SIGNATURE: &'static str =
    "Signature: 8a477f597d28d172789f06886806bc55\n";

/// Name of the file that records when an entry was last used.
pub const LAST_USED_FILE: &'static str = ".ic-testkit-last-used";

/// Name of the file that records a maintenance pass.
pub const MAINTENANCE_FILE: &'static str = ".ic-testkit-maintenance";

/// Caller-selected retention limits for content-addressed artifact entries.
///
/// Age pruning runs before size pruning. A policy without either limit scans
/// the selected cache namespace without removing entries.
#[derive(Clone, Copy, Debug, PartialEq, Eq, Structural)]
pub struct ArtifactCachePrunePolicy {
    /// Configured maximum entry age, if any.
    pub max_age: Option<Duration>,
    /// Configured maximum logical cache size in bytes, if any.
    pub max_size_bytes: Option<u64>,
}

/// Summary of one lock-coordinated artifact-cache pruning pass.
#[derive(Clone, Copy, Debug, PartialEq, Eq, Structural)]
pub struct ArtifactCachePruneReport {
    /// Number of content-addressed directories considered for pruning.
    pub entries_scanned: usize,
    /// Number of content-addressed directories removed.
    pub entries_removed: usize,
    /// Logical bytes occupied by scanned entries before pruning.
    pub bytes_before: u64,
    /// Logical bytes removed by pruning.
    pub bytes_removed: u64,
    /// Number of abandoned staging directories removed.
    pub uncommitted_directories_removed: usize,
    /// Logical bytes of abandoned staging directories removed.
    pub uncommitted_bytes_removed: u64,
}

/// Nonfatal retention attempted as part of a successful cache acquisition.
#[derive(Clone, Debug)]
pub enum ArtifactCacheMaintenance {
    /// Configured retention completed under the cache lock.
    Pruned(ArtifactCachePruneReport),
    /// Configured retention failed after the requested artifacts were ready.
    PruneFailed {
        /// Cache error rendered without invalidating the successful acquisition.
        message: String,
    },
}

/// A number held at the largest value of sixty-four bits.
pub open spec fn capped(value: nat) -> nat {
    if value <= u64::MAX {
        value
    } else {
        u64::MAX as nat
    }
}

impl Default for ArtifactCachePrunePolicy {
    fn default() -> (policy: Self)
        ensures
            policy.max_age is None,
            policy.max_size_bytes is None,
    {
        ArtifactCachePrunePolicy { max_age: None, max_size_bytes: None }
    }
}

/// `None` or `Some(number)`, as the maintenance identity writes an optional limit.
pub open spec fn limit_text(limit: Option<nat>) -> Seq<char> {
    match limit {
        None => "None"@,
        Some(value) => "Some("@ + decimal(value) + ")"@,
    }
}

/// An age limit in nanoseconds.
pub open spec fn age_limit(max_age: Option<Duration>) -> Option<nat> {
    match max_age {
        None => None,
        Some(duration) => Some(duration@),
    }
}

/// A size limit in bytes.
pub open spec fn size_limit(max_size_bytes: Option<u64>) -> Option<nat> {
    match max_size_bytes {
        None => None,
        Some(bytes) => Some(bytes as nat),
    }
}

/// Text that identifies a pair of retention limits.
pub open spec fn limits_identity(max_age: Option<Duration>, max_size_bytes: Option<u64>) -> Seq<char> {
    "age="@ + limit_text(age_limit(max_age)) + ";size="@ + limit_text(size_limit(max_size_bytes))
}

proof fn lemma_limit_text(limit: Option<nat>)
    ensures
        forall|i: int| 0 <= i < limit_text(limit).len() ==> #[trigger] limit_text(limit)[i] != ';',
        limit_text(limit).len() > 0,
        limit is None <==> limit_text(limit)[0] == 'N',
{
    reveal_strlit("None");
    reveal_strlit("Some(");
    reveal_strlit(")");
    if let Some(value) = limit {
        let digits = decimal(value);
        lemma_decimal_digits(value);
        assert forall|i: int| 0 <= i < limit_text(limit).len() implies #[trigger] limit_text(
            limit,
        )[i] != ';' by {
            if 5 <= i < 5 + digits.len() {
                assert(limit_text(limit)[i] == digits[i - 5]);
                assert(is_digit(digits[i - 5]));
            }
        }
    }
}

proof fn lemma_limit_text_injective(left: Option<nat>, right: Option<nat>)
    requires
        limit_text(left) == limit_text(right),
    ensures
        left == right,
{
    lemma_limit_text(left);
    lemma_limit_text(right);
    if left is Some {
        let (a, b) = (decimal(left->0), decimal(right->0));
        reveal_strlit("Some(");
        reveal_strlit(")");
        assert(a =~= limit_text(left).subrange(5, limit_text(left).len() - 1));
        assert(b =~= limit_text(right).subrange(5, limit_text(right).len() - 1));
        lemma_decimal_injective(left->0, right->0);
    }
}

/// Different limits are identified by different texts.
pub proof fn lemma_limits_identity_injective(
    max_age: Option<Duration>,
    max_size_bytes: Option<u64>,
    other_age: Option<Duration>,
    other_size_bytes: Option<u64>,
)
    requires
        limits_identity(max_age, max_size_bytes) == limits_identity(other_age, other_size_bytes),
    ensures
        max_age == other_age,
        max_size_bytes == other_size_bytes,
{
    let (a, b) = (age_limit(max_age), age_limit(other_age));
    let (c, d) = (size_limit(max_size_bytes), size_limit(other_size_bytes));
    let (x, y) = (limit_text(a), limit_text(b));
    let left = limits_identity(max_age, max_size_bytes);
    let right = limits_identity(other_age, other_size_bytes);
    lemma_limit_text(a);
    lemma_limit_text(b);
    reveal_strlit("age=");
    reveal_strlit(";size=");
    assert(left[4 + x.len() as int] == ';');
    assert(right[4 + y.len() as int] == ';');
    if x.len() < y.len() {
        assert(right[4 + x.len() as int] == y[x.len() as int]);
    }
    if y.len() < x.len() {
        assert(left[4 + y.len() as int] == x[y.len() as int]);
    }
    assert(x =~= left.subrange(4, 4 + x.len() as int));
    assert(y =~= right.subrange(4, 4 + x.len() as int));
    assert(limit_text(c) =~= left.skip(10 + x.len() as int));
    assert(limit_text(d) =~= right.skip(10 + x.len() as int));
    lemma_limit_text_injective(a, b);
    lemma_limit_text_injective(c, d);
    if max_age is Some {
        lemma_length_determines_span(max_age->0, other_age->0);
    }
}

fn append_limit(text: &mut String, limit: Option<u128>)
    ensures
        final(text)@ == old(text)@ + limit_text(
            match limit {
                None => None,
                Some(value) => Some(value as nat),
            },
        ),
{
    match limit {
        None => text.append("None"),
        Some(value) => {
            text.append("Some(");
            text.append(decimal_text(value).as_str());
            text.append(")");
            assert(text@ =~= old(text)@ + ("Some("@ + decimal(value as nat) + ")"@));
        },
    }
}

/// Text that identifies a pair of retention limits.
pub fn render_limits_identity(max_age: Option<Duration>, max_size_bytes: Option<u64>) -> (text: String)
    ensures
        text@ == limits_identity(max_age, max_size_bytes),
{
    let mut text = "age=".to_owned();
    match max_age {
        None => append_limit(&mut text, None),
        Some(duration) => append_limit(&mut text, Some(duration.as_nanos())),
    }
    text.append(";size=");
    match max_size_bytes {
        None => append_limit(&mut text, None),
        Some(bytes) => append_limit(&mut text, Some(bytes as u128)),
    }
    text
}

impl ArtifactCachePrunePolicy {
    /// Create a policy that records cache metadata without removing entries.
    pub fn new() -> (policy: Self)
        ensures
            policy.max_age is None,
            policy.max_size_bytes is None,
    {
        ArtifactCachePrunePolicy { max_age: None, max_size_bytes: None }
    }

    /// Remove entries older than `max_age` before applying the size limit.
    pub fn with_max_age(self, max_age: Duration) -> (policy: Self)
        ensures
            policy == (ArtifactCachePrunePolicy { max_age: Some(max_age), ..self }),
    {
        ArtifactCachePrunePolicy { max_age: Some(max_age), ..self }
    }

    /// Remove least-recently-used entries until retained logical size is at most `bytes`.
    pub fn with_max_size_bytes(self, bytes: u64) -> (policy: Self)
        ensures
            policy == (ArtifactCachePrunePolicy { max_size_bytes: Some(bytes), ..self }),
    {
        ArtifactCachePrunePolicy { max_size_bytes: Some(bytes), ..self }
    }

    /// Configured maximum entry age, if any.
    pub fn max_age(self) -> (age: Option<Duration>)
        ensures
            age == self.max_age,
    {
        self.max_age
    }

    /// Configured maximum logical cache size in bytes, if any.
    pub fn max_size_bytes(self) -> (bytes: Option<u64>)
        ensures
            bytes == self.max_size_bytes,
    {
        self.max_size_bytes
    }

    /// Text under which a completed maintenance pass with this policy is recorded.
    pub fn maintenance_identity(self) -> (text: String)
        ensures
            text@ == limits_identity(self.max_age, self.max_size_bytes),
    {
        render_limits_identity(self.max_age, self.max_size_bytes)
    }
}

impl Default for ArtifactCachePruneReport {
    fn default() -> (report: Self)
        ensures
            report == (ArtifactCachePruneReport {
                entries_scanned: 0,
                entries_removed: 0,
                bytes_before: 0,
                bytes_removed: 0,
                uncommitted_directories_removed: 0,
                uncommitted_bytes_removed: 0,
            }),
    {
        ArtifactCachePruneReport {
            entries_scanned: 0,
            entries_removed: 0,
            bytes_before: 0,
            bytes_removed: 0,
            uncommitted_directories_removed: 0,
            uncommitted_bytes_removed: 0,
        }
    }
}

impl ArtifactCachePruneReport {
    /// Number of content-addressed directories considered for pruning.
    pub fn entries_scanned(self) -> (count: usize)
        ensures
            count == self.entries_scanned,
    {
        self.entries_scanned
    }

    /// Number of content-addressed directories removed.
    pub fn entries_removed(self) -> (count: usize)
        ensures
            count == self.entries_removed,
    {
        self.entries_removed
    }

    /// Number of content-addressed directories retained.
    pub fn entries_retained(self) -> (count: usize)
        ensures
            count == if self.entries_scanned >= self.entries_removed {
                self.entries_scanned - self.entries_removed
            } else {
                0
            },
    {
        self.entries_scanned.saturating_sub(self.entries_removed)
    }

    /// Logical bytes occupied by scanned entries before pruning.
    pub fn bytes_before(self) -> (bytes: u64)
        ensures
            bytes == self.bytes_before,
    {
        self.bytes_before
    }

    /// Logical bytes removed by pruning.
    pub fn bytes_removed(self) -> (bytes: u64)
        ensures
            bytes == self.bytes_removed,
    {
        self.bytes_removed
    }

    /// Logical bytes occupied by retained entries after pruning.
    pub fn bytes_retained(self) -> (bytes: u64)
        ensures
            bytes == retained(self.bytes_before as nat, self.bytes_removed as nat),
    {
        self.bytes_before.saturating_sub(self.bytes_removed)
    }

    /// Number of abandoned staging directories removed.
    pub fn uncommitted_directories_removed(self) -> (count: usize)
        ensures
            count == self.uncommitted_directories_removed,
    {
        self.uncommitted_directories_removed
    }

    /// Logical bytes of abandoned staging directories removed.
    pub fn uncommitted_bytes_removed(self) -> (bytes: u64)
        ensures
            bytes == self.uncommitted_bytes_removed,
    {
        self.uncommitted_bytes_removed
    }

    /// Count one abandoned staging directory of `bytes` logical bytes.
    pub fn record_uncommitted_removal(&mut self, bytes: u64)
        ensures
            *final(self) == (ArtifactCachePruneReport {
                uncommitted_directories_removed: if old(self).uncommitted_directories_removed
                    < usize::MAX {
                    (old(self).uncommitted_directories_removed + 1) as usize
                } else {
                    usize::MAX
                },
                uncommitted_bytes_removed: capped(
                    (old(self).uncommitted_bytes_removed + bytes) as nat,
                ) as u64,
                ..*old(self)
            }),
    {
        self.uncommitted_directories_removed = self.uncommitted_directories_removed.saturating_add(
            1,
        );
        self.uncommitted_bytes_removed = self.uncommitted_bytes_removed.saturating_add(bytes);
    }
}

impl ArtifactCacheMaintenance {
    /// Successful pruning report, or `None` when maintenance failed.
    pub fn prune_report(&self) -> (report: Option<ArtifactCachePruneReport>)
        ensures
            report == match *self {
                ArtifactCacheMaintenance::Pruned(done) => Some(done),
                ArtifactCacheMaintenance::PruneFailed { .. } => None,
            },
    {
        match self {
            ArtifactCacheMaintenance::Pruned(report) => Some(*report),
            ArtifactCacheMaintenance::PruneFailed { .. } => None,
        }
    }

    /// Rendered maintenance failure, or `None` when pruning succeeded.
    pub fn failure_message(&self) -> (text: Option<&str>)
        ensures
            text is Some == (*self is PruneFailed),
            text matches Some(found) ==> found@ == self->message@,
    {
        match self {
            ArtifactCacheMaintenance::Pruned(_) => None,
            ArtifactCacheMaintenance::PruneFailed { message } => Some(message.as_str()),
        }
    }
}

/// Whether the contents of an existing cache directory tag are valid.
pub fn cache_directory_tag_is_valid(contents: &str) -> (valid: bool)
    ensures
        valid == CACHE_DIRECTORY_TAG_SIGNATURE@.is_prefix_of(contents@),
{
    has_prefix(contents, CACHE_DIRECTORY_TAG_SIGNATURE)
}

/// Text that records a use at `last_used`, for times since the epoch.
pub fn encode_last_used(last_used: Timestamp) -> (text: Option<String>)
    ensures
        text is Some == (last_used@ >= 0),
        text matches Some(found) ==> found@ == decimal(last_used@ as nat),
{
    match last_used.nanos_since_epoch() {
        Some(nanos) => Some(decimal_text(nanos)),
        None => None,
    }
}

/// A record of the last use of an entry.
#[derive(Clone, Debug)]
pub struct LastUsedRecord {
    /// Where the record lies.
    pub path: Vec<u8>,
    /// What the record holds.
    pub contents: String,
}

/// The record to write atomically for an entry that was used at `last_used`.
///
/// A time before the epoch cannot be recorded.
pub fn write_last_used(entry: &[u8], last_used: Timestamp) -> (record: Option<LastUsedRecord>)
    ensures
        record is Some == (last_used@ >= 0),
        record matches Some(found) ==> found.path@ == joined(
            entry@,
            encode_utf8(LAST_USED_FILE@),
        ) && found.contents@ == decimal(last_used@ as nat),
{
    match encode_last_used(last_used) {
        Some(contents) => Some(
            LastUsedRecord { path: join(entry, LAST_USED_FILE.as_bytes()), contents },
        ),
        None => None,
    }
}

/// When an entry was last used: what its record says, else when it was modified.
///
/// A record that is missing, is no decimal number or lies beyond the last
/// representable time does not count.
pub fn last_used_time(record: Option<&str>, modified: Timestamp) -> (last_used: Timestamp)
    ensures
        last_used@ == match record {
            Some(text) => if decimal_value(text@) is Some && decimal_value(text@)->0
                <= Timestamp::max_nanos() {
                decimal_value(text@)->0 as int
            } else {
                modified@
            },
            None => modified@,
        },
{
    match record {
        None => modified,
        Some(text) => {
            let chars = chars_of(text);
            match parse_decimal(chars.as_slice(), Timestamp::MAX_NANOS_SINCE_EPOCH) {
                Some(nanos) => Timestamp::from_nanos_since_epoch(nanos),
                None => modified,
            }
        },
    }
}

/// What is recorded of a use is what is read back.
pub proof fn lemma_last_used_round_trip(last_used: Timestamp)
    requires
        0 <= last_used@ <= Timestamp::max_nanos(),
    ensures
        decimal_value(decimal(last_used@ as nat)) == Some(last_used@ as nat),
{
    lemma_decimal_round_trip(last_used@ as nat);
}

/// One content-addressed directory as the pruning pass finds it.
#[derive(Clone, Debug)]
pub struct CacheEntry {
    /// Path of the directory.
    pub path: Vec<u8>,
    /// Logical size of everything below it.
    pub bytes: u64,
    /// When it was last used.
    pub last_used: Timestamp,
}

/// An entry together with what has been decided about it.
#[derive(Clone, Debug)]
pub struct PruneCandidate {
    /// The entry itself.
    pub entry: CacheEntry,
    /// Whether the entry must stay.
    pub protected: bool,
    /// Whether the age limit has already removed it.
    pub removed: bool,
}

/// Candidates are ranked by their last use, then by their paths.
impl Ranked for PruneCandidate {
    open spec fn precedes(&self, other: &Self) -> bool {
        if self.entry.last_used@ != other.entry.last_used@ {
            self.entry.last_used@ < other.entry.last_used@
        } else {
            path_less(self.entry.path@, other.entry.path@)
        }
    }

    fn comes_before(&self, other: &Self) -> (before: bool) {
        if self.entry.last_used.is_same(other.entry.last_used) {
            path_before(self.entry.path.as_slice(), other.entry.path.as_slice())
        } else {
            self.entry.last_used.is_before(other.entry.last_used)
        }
    }
}

/// What remains of `before` bytes once `removed` are gone.
pub open spec fn retained(before: nat, removed: nat) -> nat {
    if before >= removed {
        (before - removed) as nat
    } else {
        0
    }
}

/// How long ago `last_used` was, or nothing for a time still to come.
pub open spec fn age_of(now: int, last_used: int) -> nat {
    if now >= last_used {
        (now - last_used) as nat
    } else {
        0
    }
}

/// Whether an entry is the protected one.
pub open spec fn is_protected(entry: CacheEntry, protected: Option<Seq<u8>>) -> bool {
    match protected {
        Some(path) => same_path(path, entry.path@),
        None => false,
    }
}

/// Whether the age limit removes an entry.
pub open spec fn expired(
    entry: CacheEntry,
    now: Timestamp,
    policy: ArtifactCachePrunePolicy,
    protected: Option<Seq<u8>>,
) -> bool {
    match policy.max_age {
        Some(limit) => !is_protected(entry, protected) && age_of(now@, entry.last_used@) > limit@,
        None => false,
    }
}

/// What the age pass decides about an entry.
pub open spec fn candidate(
    entry: CacheEntry,
    now: Timestamp,
    policy: ArtifactCachePrunePolicy,
    protected: Option<Seq<u8>>,
) -> PruneCandidate {
    PruneCandidate {
        entry,
        protected: is_protected(entry, protected),
        removed: expired(entry, now, policy, protected),
    }
}

/// What the age pass decides about every entry.
pub open spec fn candidates(
    entries: Seq<CacheEntry>,
    now: Timestamp,
    policy: ArtifactCachePrunePolicy,
    protected: Option<Seq<u8>>,
) -> Seq<PruneCandidate> {
    entries.map_values(|entry: CacheEntry| candidate(entry, now, policy, protected))
}

/// Logical size of a list of candidates.
pub open spec fn total_bytes(items: Seq<PruneCandidate>) -> nat
    decreases items.len(),
{
    if items.len() == 0 {
        0
    } else {
        total_bytes(items.drop_last()) + items.last().entry.bytes as nat
    }
}

/// The candidates that the age pass removed, in order.
pub open spec fn aged_out(items: Seq<PruneCandidate>) -> Seq<PruneCandidate> {
    items.filter(|item: PruneCandidate| item.removed)
}

/// The candidates that the size limit removes: the first ones that may go, as long as more than
/// `limit` bytes remain.
pub open spec fn sized_out(
    items: Seq<PruneCandidate>,
    before: nat,
    removed: nat,
    limit: nat,
) -> Seq<PruneCandidate>
    decreases items.len(),
{
    if items.len() == 0 || retained(before, capped(removed)) <= limit {
        seq![]
    } else if items[0].protected || items[0].removed {
        sized_out(items.drop_first(), before, removed, limit)
    } else {
        seq![items[0]] + sized_out(
            items.drop_first(),
            before,
            removed + items[0].entry.bytes as nat,
            limit,
        )
    }
}

/// Every removal that a policy asks for, in the order in which it is carried out.
pub open spec fn removals(
    items: Seq<PruneCandidate>,
    policy: ArtifactCachePrunePolicy,
) -> Seq<PruneCandidate> {
    let aged = aged_out(items);
    match policy.max_size_bytes {
        None => aged,
        Some(limit) => aged + sized_out(
            ranked(items),
            capped(total_bytes(items)),
            total_bytes(aged),
            limit as nat,
        ),
    }
}

/// What a pruning pass removes, and its report once everything is removed.
#[derive(Clone, Debug)]
pub struct PrunePlan {
    /// Directories to remove, in order.
    pub removals: Vec<Vec<u8>>,
    /// Summary of the pass.
    pub report: ArtifactCachePruneReport,
}

/// Paths of a list of candidates.
pub open spec fn candidate_paths(items: Seq<PruneCandidate>) -> Seq<Seq<u8>> {
    items.map_values(|item: PruneCandidate| item.entry.path@)
}

proof fn lemma_total_append(left: Seq<PruneCandidate>, right: Seq<PruneCandidate>)
    ensures
        total_bytes(left + right) == total_bytes(left) + total_bytes(right),
    decreases right.len(),
{
    if right.len() == 0 {
        assert(left + right =~= left);
    } else {
        lemma_total_append(left, right.drop_last());
        assert((left + right).drop_last() =~= left + right.drop_last());
    }
}

proof fn lemma_sized_out_suffix(
    items: Seq<PruneCandidate>,
    at: int,
    before: nat,
    removed: nat,
    limit: nat,
)
    requires
        0 <= at < items.len(),
        retained(before, capped(removed)) > limit,
    ensures
        items[at].protected || items[at].removed ==> sized_out(items.skip(at), before, removed, limit)
            == sized_out(items.skip(at + 1), before, removed, limit),
        !items[at].protected && !items[at].removed ==> sized_out(
            items.skip(at),
            before,
            removed,
            limit,
        ) == seq![items[at]] + sized_out(
            items.skip(at + 1),
            before,
            removed + items[at].entry.bytes as nat,
            limit,
        ),
{
    assert(items.skip(at)[0] == items[at]);
    assert(items.skip(at).drop_first() =~= items.skip(at + 1));
}

/// Sum of what `of` gives for each of a list of candidates.
spec fn weight(items: Seq<PruneCandidate>, of: spec_fn(PruneCandidate) -> nat) -> nat
    decreases items.len(),
{
    if items.len() == 0 {
        0
    } else {
        weight(items.drop_last(), of) + of(items.last())
    }
}

spec fn of_aged(of: spec_fn(PruneCandidate) -> nat) -> spec_fn(PruneCandidate) -> nat {
    |item: PruneCandidate| if item.removed { of(item) } else { 0 }
}

spec fn of_others(of: spec_fn(PruneCandidate) -> nat) -> spec_fn(PruneCandidate) -> nat {
    |item: PruneCandidate| if item.removed { 0 } else { of(item) }
}

proof fn lemma_weight_append(
    left: Seq<PruneCandidate>,
    right: Seq<PruneCandidate>,
    of: spec_fn(PruneCandidate) -> nat,
)
    ensures
        weight(left + right, of) == weight(left, of) + weight(right, of),
    decreases right.len(),
{
    if right.len() == 0 {
        assert(left + right =~= left);
    } else {
        lemma_weight_append(left, right.drop_last(), of);
        assert((left + right).drop_last() =~= left + right.drop_last());
    }
}

proof fn lemma_weight_first(items: Seq<PruneCandidate>, of: spec_fn(PruneCandidate) -> nat)
    requires
        items.len() > 0,
    ensures
        weight(items, of) == of(items[0]) + weight(items.drop_first(), of),
{
    let first = seq![items[0]];
    assert(items =~= first + items.drop_first());
    lemma_weight_append(first, items.drop_first(), of);
    assert(first.drop_last() =~= Seq::<PruneCandidate>::empty());
    assert(weight(first, of) == weight(first.drop_last(), of) + of(first.last()));
}

proof fn lemma_weight_insert(
    items: Seq<PruneCandidate>,
    item: PruneCandidate,
    of: spec_fn(PruneCandidate) -> nat,
)
    ensures
        weight(insert_ranked(items, item), of) == weight(items, of) + of(item),
    decreases items.len(),
{
    if items.len() == 0 || !item.precedes(&items.last()) {
        assert(items.push(item).drop_last() =~= items);
    } else {
        let rest = insert_ranked(items.drop_last(), item);
        lemma_weight_insert(items.drop_last(), item, of);
        assert(rest.push(items.last()).drop_last() =~= rest);
    }
}

proof fn lemma_weight_ranked(items: Seq<PruneCandidate>, of: spec_fn(PruneCandidate) -> nat)
    ensures
        weight(ranked(items), of) == weight(items, of),
    decreases items.len(),
{
    if items.len() > 0 {
        lemma_weight_ranked(items.drop_last(), of);
        lemma_weight_insert(ranked(items.drop_last()), items.last(), of);
    }
}

proof fn lemma_weight_parts(items: Seq<PruneCandidate>, of: spec_fn(PruneCandidate) -> nat)
    ensures
        weight(aged_out(items), of) == weight(items, of_aged(of)),
        weight(items, of) == weight(items, of_aged(of)) + weight(items, of_others(of)),
    decreases items.len(),
{
    reveal(Seq::filter);
    if items.len() > 0 {
        let rest = aged_out(items.drop_last());
        lemma_weight_parts(items.drop_last(), of);
        if items.last().removed {
            assert(aged_out(items) == rest.push(items.last()));
            assert(rest.push(items.last()).drop_last() =~= rest);
        } else {
            assert(aged_out(items) == rest);
        }
    }
}

proof fn lemma_weight_sized_out(
    items: Seq<PruneCandidate>,
    before: nat,
    removed: nat,
    limit: nat,
    of: spec_fn(PruneCandidate) -> nat,
)
    ensures
        weight(sized_out(items, before, removed, limit), of) <= weight(items, of_others(of)),
    decreases items.len(),
{
    if items.len() > 0 && retained(before, capped(removed)) > limit {
        let (first, rest) = (items[0], items.drop_first());
        lemma_weight_first(items, of_others(of));
        if first.protected || first.removed {
            lemma_weight_sized_out(rest, before, removed, limit, of);
        } else {
            let more = removed + first.entry.bytes as nat;
            let chosen = sized_out(items, before, removed, limit);
            lemma_weight_sized_out(rest, before, more, limit, of);
            lemma_weight_first(chosen, of);
            assert(chosen.drop_first() =~= sized_out(rest, before, more, limit));
        }
    }
}

proof fn lemma_removals_weigh_no_more(
    items: Seq<PruneCandidate>,
    policy: ArtifactCachePrunePolicy,
    of: spec_fn(PruneCandidate) -> nat,
)
    ensures
        weight(removals(items, policy), of) <= weight(items, of),
{
    lemma_weight_parts(items, of);
    if let Some(limit) = policy.max_size_bytes {
        let aged = aged_out(items);
        let (before, removed) = (capped(total_bytes(items)), total_bytes(aged));
        lemma_weight_sized_out(ranked(items), before, removed, limit as nat, of);
        lemma_weight_ranked(items, of_others(of));
        lemma_weight_append(aged, sized_out(ranked(items), before, removed, limit as nat), of);
    }
}

proof fn lemma_weight_counts(items: Seq<PruneCandidate>)
    ensures
        weight(items, |item: PruneCandidate| 1) == items.len(),
        weight(items, |item: PruneCandidate| item.entry.bytes as nat) == total_bytes(items),
    decreases items.len(),
{
    if items.len() > 0 {
        lemma_weight_counts(items.drop_last());
    }
}

/// No more entries are removed than there are, nor more bytes.
pub proof fn lemma_removals_are_bounded(
    items: Seq<PruneCandidate>,
    policy: ArtifactCachePrunePolicy,
)
    ensures
        removals(items, policy).len() <= items.len(),
        total_bytes(removals(items, policy)) <= total_bytes(items),
{
    let removed = removals(items, policy);
    lemma_weight_counts(items);
    lemma_weight_counts(removed);
    lemma_removals_weigh_no_more(items, policy, |item: PruneCandidate| 1);
    lemma_removals_weigh_no_more(
        items,
        policy,
        |item: PruneCandidate| item.entry.bytes as nat,
    );
}

/// Decide which of `entries` a policy removes at time `now`.
///
/// Entries older than the age limit go first; then the least recently used
/// entries go until the size limit is met. The protected entry always stays.
pub fn prune_direct_child_directories(
    entries: Vec<CacheEntry>,
    now: Timestamp,
    policy: ArtifactCachePrunePolicy,
    protected: Option<&[u8]>,
) -> (plan: PrunePlan)
    ensures
        ({
            let path = match protected {
                Some(path) => Some(path@),
                None => None,
            };
            let items = candidates(entries@, now, policy, path);
            let removed = removals(items, policy);
            &&& byte_strings(plan.removals@) == candidate_paths(removed)
            &&& plan.report == (ArtifactCachePruneReport {
                entries_scanned: entries@.len() as usize,
                entries_removed: removed.len() as usize,
                bytes_before: capped(total_bytes(items)) as u64,
                bytes_removed: capped(total_bytes(removed)) as u64,
                uncommitted_directories_removed: 0,
                uncommitted_bytes_removed: 0,
            })
        }),
        plan.report.entries_removed <= plan.report.entries_scanned,
        plan.report.bytes_removed <= plan.report.bytes_before,
{
    let ghost path = match protected {
        Some(path) => Some(path@),
        None => None,
    };
    let ghost items = candidates(entries@, now, policy, path);
    let entries_scanned = entries.len();
    let mut rest = entries;
    let mut all: Vec<PruneCandidate> = Vec::new();
    let mut chosen: Vec<Vec<u8>> = Vec::new();
    let mut bytes_before: u64 = 0;
    let mut bytes_removed: u64 = 0;
    assert(items.take(0) =~= Seq::<PruneCandidate>::empty());
    assert(aged_out(items.take(0)) =~= Seq::<PruneCandidate>::empty()) by {
        reveal(Seq::filter);
    }
    assert(byte_strings(chosen@) =~= candidate_paths(aged_out(all@)));
    while rest.len() > 0
        invariant
            rest@.len() + all@.len() == entries@.len(),
            rest@ == entries@.skip(all@.len() as int),
            items == candidates(entries@, now, policy, path),
            path == match protected {
                Some(path) => Some(path@),
                None => None,
            },
            all@ == items.take(all@.len() as int),
            byte_strings(chosen@) == candidate_paths(aged_out(all@)),
            bytes_before == capped(total_bytes(all@)),
            bytes_removed == capped(total_bytes(aged_out(all@))),
        decreases rest.len(),
    {
        let entry = rest.remove(0);
        let ghost at = all@.len() as int;
        assert(entry == entries@[at]);
        let is_active = match protected {
            Some(path) => paths_equal(path, entry.path.as_slice()),
            None => false,
        };
        let remove = match policy.max_age {
            Some(limit) => !is_active && now.age_exceeds(entry.last_used, limit),
            None => false,
        };
        bytes_before = bytes_before.saturating_add(entry.bytes);
        let ghost item = items[at];
        let ghost before = all@;
        let ghost chosen_before = chosen@;
        if remove {
            bytes_removed = bytes_removed.saturating_add(entry.bytes);
            chosen.push(vstd::slice::slice_to_vec(entry.path.as_slice()));
        }
        all.push(PruneCandidate { entry, protected: is_active, removed: remove });
        proof {
            assert(all@.last() == item);
            assert(all@ =~= items.take(at + 1));
            assert(all@.drop_last() =~= before);
            assert(aged_out(all@) == if item.removed {
                aged_out(before).push(item)
            } else {
                aged_out(before)
            }) by {
                reveal(Seq::filter);
            }
            assert(aged_out(before).push(item).drop_last() =~= aged_out(before));
            assert(byte_strings(chosen@) =~= candidate_paths(aged_out(all@))) by {
                assert(byte_strings(chosen_before) =~= candidate_paths(aged_out(before)));
                if remove {
                    assert(byte_strings(chosen@) =~= byte_strings(chosen_before).push(
                        item.entry.path@,
                    ));
                }
            }
            assert(rest@ =~= entries@.skip(at + 1));
        }
    }
    assert(all@ =~= items);
    let ghost aged = aged_out(items);
    if let Some(limit) = policy.max_size_bytes {
        sort_ranked(&mut all);
        let ghost sorted = all@;
        let ghost before = capped(total_bytes(items));
        let ghost start = total_bytes(aged);
        let ghost mut taken: Seq<PruneCandidate> = Seq::empty();
        let mut at: usize = 0;
        proof {
            assert(sorted.skip(0) =~= sorted);
            assert(aged + taken =~= aged);
            assert(taken + sized_out(sorted, before, start, limit as nat) =~= sized_out(
                sorted,
                before,
                start,
                limit as nat,
            ));
        }
        while at < all.len() && bytes_before.saturating_sub(bytes_removed) > limit
            invariant
                at <= all@.len(),
                all@ == sorted,
                bytes_before == before,
                bytes_removed == capped(start + total_bytes(taken)),
                byte_strings(chosen@) == candidate_paths(aged + taken),
                sized_out(sorted, before, start, limit as nat) == taken + sized_out(
                    sorted.skip(at as int),
                    before,
                    start + total_bytes(taken),
                    limit as nat,
                ),
            decreases all.len() - at,
        {
            proof {
                lemma_sized_out_suffix(
                    sorted,
                    at as int,
                    before,
                    start + total_bytes(taken),
                    limit as nat,
                );
            }
            let item = &all[at];
            if !item.protected && !item.removed {
                let ghost chosen_before = chosen@;
                bytes_removed = bytes_removed.saturating_add(item.entry.bytes);
                chosen.push(vstd::slice::slice_to_vec(item.entry.path.as_slice()));
                proof {
                    let more = taken.push(sorted[at as int]);
                    let tail = sized_out(
                        sorted.skip(at + 1),
                        before,
                        start + total_bytes(more),
                        limit as nat,
                    );
                    assert(more.drop_last() =~= taken);
                    assert(aged + more =~= (aged + taken).push(sorted[at as int]));
                    assert(byte_strings(chosen@) =~= byte_strings(chosen_before).push(
                        sorted[at as int].entry.path@,
                    ));
                    assert(byte_strings(chosen@) =~= candidate_paths(aged + more));
                    assert(taken + (seq![sorted[at as int]] + tail) =~= more + tail);
                    taken = more;
                }
            }
            at = at + 1;
        }
        proof {
            assert(sized_out(
                sorted.skip(at as int),
                before,
                start + total_bytes(taken),
                limit as nat,
            ) =~= seq![]);
            assert(sized_out(sorted, before, start, limit as nat) =~= taken);
            lemma_total_append(aged, taken);
        }
    }
    let entries_removed = chosen.len();
    proof {
        let removed = removals(items, policy);
        assert(byte_strings(chosen@).len() == candidate_paths(removed).len());
        lemma_removals_are_bounded(items, policy);
    }
    PrunePlan {
        removals: chosen,
        report: ArtifactCachePruneReport {
            entries_scanned,
            entries_removed,
            bytes_before,
            bytes_removed,
            uncommitted_directories_removed: 0,
            uncommitted_bytes_removed: 0,
        },
    }
}

proof fn lemma_sized_out_members(
    items: Seq<PruneCandidate>,
    before: nat,
    removed: nat,
    limit: nat,
)
    ensures
        forall|i: int|
            #![trigger sized_out(items, before, removed, limit)[i]]
            0 <= i < sized_out(items, before, removed, limit).len() ==> !sized_out(
                items,
                before,
                removed,
                limit,
            )[i].protected,
    decreases items.len(),
{
    if items.len() > 0 && retained(before, capped(removed)) > limit {
        if items[0].protected || items[0].removed {
            lemma_sized_out_members(items.drop_first(), before, removed, limit);
            assert(sized_out(items, before, removed, limit) == sized_out(
                items.drop_first(),
                before,
                removed,
                limit,
            ));
        } else {
            let more = removed + items[0].entry.bytes as nat;
            lemma_sized_out_members(items.drop_first(), before, more, limit);
            let (all, tail) = (
                sized_out(items, before, removed, limit),
                sized_out(items.drop_first(), before, more, limit),
            );
            assert forall|i: int| #![trigger all[i]] 0 <= i < all.len() implies !all[i].protected by {
                if i > 0 {
                    assert(all[i] == tail[i - 1]);
                }
            }
        }
    }
}

/// A pruning pass never removes the protected entry.
pub proof fn lemma_protected_entry_stays(
    entries: Seq<CacheEntry>,
    now: Timestamp,
    policy: ArtifactCachePrunePolicy,
    protected: Option<Seq<u8>>,
)
    ensures
        ({
            let removed = removals(candidates(entries, now, policy, protected), policy);
            forall|i: int|
                #![trigger removed[i]]
                0 <= i < removed.len() ==> !removed[i].protected
        }),
{
    let items = candidates(entries, now, policy, protected);
    let aged = aged_out(items);
    assert forall|i: int| #![trigger aged[i]] 0 <= i < aged.len() implies !aged[i].protected by {
        lemma_aged_out_members(items, i);
    }
    if let Some(limit) = policy.max_size_bytes {
        lemma_sized_out_members(
            ranked(items),
            capped(total_bytes(items)),
            total_bytes(aged),
            limit as nat,
        );
    }
}

proof fn lemma_aged_out_members(items: Seq<PruneCandidate>, i: int)
    requires
        0 <= i < aged_out(items).len(),
    ensures
        aged_out(items)[i].removed,
        exists|k: int| 0 <= k < items.len() && items[k] == aged_out(items)[i],
    decreases items.len(),
{
    reveal(Seq::filter);
    if items.len() > 0 {
        let shorter = items.drop_last();
        if i < aged_out(shorter).len() {
            lemma_aged_out_members(shorter, i);
            let k = choose|k: int| 0 <= k < shorter.len() && shorter[k] == aged_out(shorter)[i];
            assert(items[k] == shorter[k]);
        } else {
            assert(items[items.len() - 1] == aged_out(items)[i]);
        }
    }
}

/// A policy without limits removes nothing.
pub proof fn lemma_empty_policy_removes_nothing(
    entries: Seq<CacheEntry>,
    now: Timestamp,
    policy: ArtifactCachePrunePolicy,
    protected: Option<Seq<u8>>,
)
    requires
        policy.max_age is None,
        policy.max_size_bytes is None,
    ensures
        removals(candidates(entries, now, policy, protected), policy).len() == 0,
{
    let items = candidates(entries, now, policy, protected);
    if aged_out(items).len() > 0 {
        lemma_aged_out_members(items, 0);
    }
}

proof fn lemma_sized_out_meets_limit(
    items: Seq<PruneCandidate>,
    before: nat,
    removed: nat,
    limit: nat,
)
    ensures
        ({
            let chosen = sized_out(items, before, removed, limit);
            ||| retained(before, capped(removed + total_bytes(chosen))) <= limit
            ||| chosen == items.filter(|item: PruneCandidate| !item.protected && !item.removed)
        }),
    decreases items.len(),
{
    let free = |item: PruneCandidate| !item.protected && !item.removed;
    let chosen = sized_out(items, before, removed, limit);
    if items.len() == 0 {
        assert(items.filter(free) =~= seq![]) by {
            reveal(Seq::filter);
        }
    } else if retained(before, capped(removed)) <= limit {
        assert(total_bytes(chosen) == 0);
    } else {
        lemma_filter_first(items, free);
        if items[0].protected || items[0].removed {
            lemma_sized_out_meets_limit(items.drop_first(), before, removed, limit);
        } else {
            let more = removed + items[0].entry.bytes as nat;
            let tail = sized_out(items.drop_first(), before, more, limit);
            lemma_sized_out_meets_limit(items.drop_first(), before, more, limit);
            lemma_total_append(seq![items[0]], tail);
            assert(total_bytes(seq![items[0]]) == items[0].entry.bytes) by {
                reveal_with_fuel(total_bytes, 2);
            }
        }
    }
}

proof fn lemma_filter_first(items: Seq<PruneCandidate>, keep: spec_fn(PruneCandidate) -> bool)
    requires
        items.len() > 0,
    ensures
        items.filter(keep) == if keep(items[0]) {
            seq![items[0]] + items.drop_first().filter(keep)
        } else {
            items.drop_first().filter(keep)
        },
    decreases items.len(),
{
    reveal(Seq::filter);
    if items.len() == 1 {
        assert(items.drop_last() =~= seq![]);
        assert(items.drop_first() =~= seq![]);
        assert(items.filter(keep) =~= if keep(items[0]) {
            seq![items[0]] + items.drop_first().filter(keep)
        } else {
            items.drop_first().filter(keep)
        });
    } else {
        lemma_filter_first(items.drop_last(), keep);
        assert(items.drop_last().drop_first() =~= items.drop_first().drop_last());
        assert(items.drop_first().last() == items.last());
        assert(items.filter(keep) =~= if keep(items[0]) {
            seq![items[0]] + items.drop_first().filter(keep)
        } else {
            items.drop_first().filter(keep)
        });
    }
}

/// With a size limit, a pass ends within the limit or has removed everything it may remove.
pub proof fn lemma_size_limit_is_met(
    entries: Seq<CacheEntry>,
    now: Timestamp,
    policy: ArtifactCachePrunePolicy,
    protected: Option<Seq<u8>>,
)
    requires
        policy.max_size_bytes is Some,
    ensures
        ({
            let items = candidates(entries, now, policy, protected);
            let removed = removals(items, policy);
            ||| retained(capped(total_bytes(items)), capped(total_bytes(removed)))
                <= policy.max_size_bytes->0
            ||| removed == aged_out(items) + ranked(items).filter(
                |item: PruneCandidate| !item.protected && !item.removed,
            )
        }),
{
    let items = candidates(entries, now, policy, protected);
    let aged = aged_out(items);
    let limit = policy.max_size_bytes->0 as nat;
    let before = capped(total_bytes(items));
    lemma_sized_out_meets_limit(ranked(items), before, total_bytes(aged), limit);
    lemma_total_append(aged, sized_out(ranked(items), before, total_bytes(aged), limit));
}

proof fn lemma_filter_keeps(
    items: Seq<PruneCandidate>,
    keep: spec_fn(PruneCandidate) -> bool,
    i: int,
)
    requires
        0 <= i < items.len(),
        keep(items[i]),
    ensures
        exists|k: int| 0 <= k < items.filter(keep).len() && items.filter(keep)[k] == items[i],
    decreases items.len(),
{
    reveal(Seq::filter);
    let shorter = items.drop_last();
    let all = items.filter(keep);
    if i < shorter.len() {
        lemma_filter_keeps(shorter, keep, i);
        let k = choose|k: int|
            0 <= k < shorter.filter(keep).len() && shorter.filter(keep)[k] == shorter[i];
        assert(all[k] == items[i]);
    } else {
        assert(all[all.len() - 1] == items[i]);
    }
}

/// A pruning pass removes every entry that is older than the age limit, unless it is protected.
pub proof fn lemma_expired_entries_go(
    entries: Seq<CacheEntry>,
    now: Timestamp,
    policy: ArtifactCachePrunePolicy,
    protected: Option<Seq<u8>>,
    i: int,
)
    requires
        0 <= i < entries.len(),
        expired(entries[i], now, policy, protected),
    ensures
        ({
            let removed = removals(candidates(entries, now, policy, protected), policy);
            exists|k: int| 0 <= k < removed.len() && (#[trigger] removed[k]).entry == entries[i]
        }),
{
    let items = candidates(entries, now, policy, protected);
    let removed = removals(items, policy);
    let aged = aged_out(items);
    assert(items[i] == candidate(entries[i], now, policy, protected));
    lemma_filter_keeps(items, |item: PruneCandidate| item.removed, i);
    let k = choose|k: int| 0 <= k < aged.len() && aged[k] == items[i];
    assert(removed[k] == aged[k]);
}

/// Whether candidates stand in the order of their last use.
pub open spec fn by_last_use(items: Seq<PruneCandidate>) -> bool {
    forall|i: int, j: int|
        #![trigger items[i], items[j]]
        0 <= i < j < items.len() ==> items[i].entry.last_used@ <= items[j].entry.last_used@
}

proof fn lemma_insert_by_last_use(items: Seq<PruneCandidate>, item: PruneCandidate)
    requires
        by_last_use(items),
    ensures
        by_last_use(insert_ranked(items, item)),
        insert_ranked(items, item).len() == items.len() + 1,
        forall|i: int|
            0 <= i < items.len() + 1 ==> (#[trigger] insert_ranked(items, item)[i] == item
                || items.contains(insert_ranked(items, item)[i])),
    decreases items.len(),
{
    let result = insert_ranked(items, item);
    if items.len() == 0 || !item.precedes(&items.last()) {
        assert forall|i: int| 0 <= i < result.len() implies (#[trigger] result[i] == item
            || items.contains(result[i])) by {
            if i < items.len() {
                assert(items[i] == result[i]);
            }
        }
        assert forall|i: int, j: int|
            #![trigger result[i], result[j]]
            0 <= i < j < result.len() implies result[i].entry.last_used@
            <= result[j].entry.last_used@ by {
            assert(result[i] == items[i]);
            if j < items.len() {
                assert(result[j] == items[j]);
            } else if i < items.len() - 1 {
                assert(items[i].entry.last_used@ <= items[items.len() - 1].entry.last_used@);
            }
        }
    } else {
        let shorter = items.drop_last();
        let end = items[items.len() - 1];
        assert forall|i: int, j: int|
            #![trigger shorter[i], shorter[j]]
            0 <= i < j < shorter.len() implies shorter[i].entry.last_used@
            <= shorter[j].entry.last_used@ by {
            assert(items[i] == shorter[i] && items[j] == shorter[j]);
        }
        lemma_insert_by_last_use(shorter, item);
        let inner = insert_ranked(shorter, item);
        assert forall|i: int| 0 <= i < inner.len() implies (#[trigger] inner[i]).entry.last_used@
            <= end.entry.last_used@ && (inner[i] == item || items.contains(inner[i])) by {
            if inner[i] != item {
                let k = shorter.index_of(inner[i]);
                assert(items[k] == inner[i]);
            }
        }
        assert forall|i: int| 0 <= i < result.len() implies (#[trigger] result[i] == item
            || items.contains(result[i])) by {
            if i < inner.len() {
                assert(result[i] == inner[i]);
            } else {
                assert(items[items.len() - 1] == result[i]);
            }
        }
        assert forall|i: int, j: int|
            #![trigger result[i], result[j]]
            0 <= i < j < result.len() implies result[i].entry.last_used@
            <= result[j].entry.last_used@ by {
            assert(result[i] == inner[i]);
            if j < inner.len() {
                assert(result[j] == inner[j]);
            }
        }
    }
}

proof fn lemma_ranked_by_last_use(items: Seq<PruneCandidate>)
    ensures
        by_last_use(ranked(items)),
    decreases items.len(),
{
    if items.len() > 0 {
        lemma_ranked_by_last_use(items.drop_last());
        lemma_insert_by_last_use(ranked(items.drop_last()), items.last());
    }
}

proof fn lemma_sized_out_first(items: Seq<PruneCandidate>, before: nat, removed: nat, limit: nat)
    ensures
        sized_out(items, before, removed, limit).is_prefix_of(
            items.filter(|item: PruneCandidate| !item.protected && !item.removed),
        ),
    decreases items.len(),
{
    let free = |item: PruneCandidate| !item.protected && !item.removed;
    if items.len() > 0 && retained(before, capped(removed)) > limit {
        lemma_filter_first(items, free);
        if items[0].protected || items[0].removed {
            lemma_sized_out_first(items.drop_first(), before, removed, limit);
        } else {
            let more = removed + items[0].entry.bytes as nat;
            lemma_sized_out_first(items.drop_first(), before, more, limit);
            let (tail, rest) = (
                sized_out(items.drop_first(), before, more, limit),
                items.drop_first().filter(free),
            );
            assert((seq![items[0]] + rest).take((1 + tail.len()) as int) =~= seq![items[0]] + tail);
        }
    }
}

/// The size limit removes the least recently used of the entries that may go, and those first.
pub proof fn lemma_least_recently_used_go_first(
    entries: Seq<CacheEntry>,
    now: Timestamp,
    policy: ArtifactCachePrunePolicy,
    protected: Option<Seq<u8>>,
)
    requires
        policy.max_size_bytes is Some,
    ensures
        ({
            let items = candidates(entries, now, policy, protected);
            let aged = aged_out(items);
            let removed = removals(items, policy);
            &&& by_last_use(ranked(items))
            &&& removed.take(aged.len() as int) == aged
            &&& removed.skip(aged.len() as int).is_prefix_of(
                ranked(items).filter(|item: PruneCandidate| !item.protected && !item.removed),
            )
        }),
{
    let items = candidates(entries, now, policy, protected);
    let aged = aged_out(items);
    let removed = removals(items, policy);
    let limit = policy.max_size_bytes->0 as nat;
    let before = capped(total_bytes(items));
    lemma_ranked_by_last_use(items);
    lemma_sized_out_first(ranked(items), before, total_bytes(aged), limit);
    let sized = sized_out(ranked(items), before, total_bytes(aged), limit);
    assert(removed.take(aged.len() as int) =~= aged);
    assert(removed.skip(aged.len() as int) =~= sized);
}

/// Whether an entry was last used longer ago than the age limit allows.
pub open spec fn is_too_old(entry: CacheEntry, now: Timestamp, policy: ArtifactCachePrunePolicy) -> bool {
    policy.max_age matches Some(limit) && now@ - entry.last_used@ > limit@
}

/// Whether an entry lies at the path that must stay.
pub open spec fn must_stay(entry: CacheEntry, protected: Option<Seq<u8>>) -> bool {
    protected matches Some(path) && components(path) == components(entry.path@)
}

/// The entries that a pruning pass removes, in order.
pub open spec fn removed_entries(
    entries: Seq<CacheEntry>,
    now: Timestamp,
    policy: ArtifactCachePrunePolicy,
    protected: Option<Seq<u8>>,
) -> Seq<CacheEntry> {
    removals(candidates(entries, now, policy, protected), policy).map_values(
        |item: PruneCandidate| item.entry,
    )
}

/// Logical sizes of entries.
pub open spec fn sizes(entries: Seq<CacheEntry>) -> Seq<int> {
    entries.map_values(|entry: CacheEntry| entry.bytes as int)
}

proof fn lemma_total_is_sum(items: Seq<PruneCandidate>)
    ensures
        total_bytes(items) == plain_sum(
            sizes(items.map_values(|item: PruneCandidate| item.entry)),
        ),
    decreases items.len(),
{
    let view = |item: PruneCandidate| item.entry;
    if items.len() > 0 {
        lemma_total_is_sum(items.drop_last());
        assert(sizes(items.map_values(view)).drop_last() =~= sizes(
            items.drop_last().map_values(view),
        ));
    }
}

proof fn lemma_candidate_is_entry(
    entries: Seq<CacheEntry>,
    now: Timestamp,
    policy: ArtifactCachePrunePolicy,
    protected: Option<Seq<u8>>,
    i: int,
)
    requires
        0 <= i < entries.len(),
    ensures
        ({
            let item = candidates(entries, now, policy, protected)[i];
            &&& item.entry == entries[i]
            &&& item.protected == must_stay(entries[i], protected)
            &&& item.removed == (is_too_old(entries[i], now, policy) && !must_stay(
                entries[i],
                protected,
            ))
        }),
{
}

proof fn lemma_ranked_members(items: Seq<PruneCandidate>)
    ensures
        ranked(items).len() == items.len(),
        forall|i: int| #![trigger ranked(items)[i]]
            0 <= i < items.len() ==> items.contains(ranked(items)[i]),
        forall|i: int| #![trigger items[i]]
            0 <= i < items.len() ==> ranked(items).contains(items[i]),
    decreases items.len(),
{
    if items.len() > 0 {
        let shorter = items.drop_last();
        let (before, all) = (ranked(shorter), ranked(items));
        lemma_ranked_members(shorter);
        lemma_insert_members(before, items.last());
        assert forall|i: int| #![trigger all[i]] 0 <= i < items.len() implies items.contains(
            all[i],
        ) by {
            if all[i] == items.last() {
                assert(items[items.len() - 1] == all[i]);
            } else {
                let k = before.index_of(all[i]);
                assert(before[k] == all[i]);
                let m = shorter.index_of(before[k]);
                assert(items[m] == all[i]);
            }
        }
        assert forall|i: int| #![trigger items[i]] 0 <= i < items.len() implies all.contains(
            items[i],
        ) by {
            if i < shorter.len() {
                assert(shorter[i] == items[i]);
                let k = before.index_of(items[i]);
                assert(all.contains(before[k]));
            }
        }
    }
}

proof fn lemma_insert_members(items: Seq<PruneCandidate>, item: PruneCandidate)
    ensures
        insert_ranked(items, item).len() == items.len() + 1,
        insert_ranked(items, item).contains(item),
        forall|i: int| #![trigger items[i]]
            0 <= i < items.len() ==> insert_ranked(items, item).contains(items[i]),
        forall|i: int| #![trigger insert_ranked(items, item)[i]]
            0 <= i <= items.len() ==> insert_ranked(items, item)[i] == item || items.contains(
                insert_ranked(items, item)[i],
            ),
    decreases items.len(),
{
    let all = insert_ranked(items, item);
    if items.len() == 0 || !item.precedes(&items.last()) {
        assert(all[items.len() as int] == item);
        assert forall|i: int| #![trigger items[i]] 0 <= i < items.len() implies all.contains(
            items[i],
        ) by {
            assert(all[i] == items[i]);
        }
        assert forall|i: int| #![trigger all[i]] 0 <= i <= items.len() implies all[i] == item
            || items.contains(all[i]) by {
            if i < items.len() {
                assert(items[i] == all[i]);
            }
        }
    } else {
        let shorter = items.drop_last();
        let inner = insert_ranked(shorter, item);
        lemma_insert_members(shorter, item);
        let k = inner.index_of(item);
        assert(all[k] == item);
        assert forall|i: int| #![trigger items[i]] 0 <= i < items.len() implies all.contains(
            items[i],
        ) by {
            if i < shorter.len() {
                assert(shorter[i] == items[i]);
                let m = inner.index_of(items[i]);
                assert(all[m] == items[i]);
            } else {
                assert(all[inner.len() as int] == items[i]);
            }
        }
        assert forall|i: int| #![trigger all[i]] 0 <= i <= items.len() implies all[i] == item
            || items.contains(all[i]) by {
            if i < inner.len() {
                assert(all[i] == inner[i]);
                if inner[i] != item {
                    let m = shorter.index_of(inner[i]);
                    assert(items[m] == all[i]);
                }
            } else {
                assert(items[items.len() - 1] == all[i]);
            }
        }
    }
}

proof fn lemma_removal_is_candidate(
    items: Seq<PruneCandidate>,
    policy: ArtifactCachePrunePolicy,
    k: int,
)
    requires
        0 <= k < removals(items, policy).len(),
    ensures
        items.contains(removals(items, policy)[k]),
        removals(items, policy)[k].removed || (policy.max_size_bytes is Some && !removals(
            items,
            policy,
        )[k].protected && k >= aged_out(items).len()),
{
    let aged = aged_out(items);
    let all = removals(items, policy);
    if k < aged.len() {
        assert(all[k] == aged[k]);
        lemma_aged_out_members(items, k);
        let i = choose|i: int| 0 <= i < items.len() && items[i] == aged[k];
        assert(items.contains(items[i]));
    } else {
        let limit = policy.max_size_bytes->0 as nat;
        let before = capped(total_bytes(items));
        let sized = sized_out(ranked(items), before, total_bytes(aged), limit);
        let free = |item: PruneCandidate| !item.protected && !item.removed;
        lemma_sized_out_first(ranked(items), before, total_bytes(aged), limit);
        let some = ranked(items).filter(free);
        assert(all[k] == sized[k - aged.len()]);
        assert(sized[k - aged.len()] == some[k - aged.len()]);
        ranked(items).lemma_filter_pred(free, k - aged.len());
        assert(some.contains(some[k - aged.len()]));
        ranked(items).lemma_filter_contains_rev(free, some[k - aged.len()]);
        lemma_ranked_members(items);
        let i = ranked(items).index_of(some[k - aged.len()]);
        assert(items.contains(ranked(items)[i]));
    }
}

/// Nothing is removed without a reason: what goes is an entry, not the protected one, and without
/// a size limit it was last used longer ago than the age limit. So an entry within the age limit
/// stays.
pub proof fn lemma_recent_entries_stay(
    entries: Seq<CacheEntry>,
    now: Timestamp,
    policy: ArtifactCachePrunePolicy,
    protected: Option<Seq<u8>>,
    k: int,
)
    requires
        0 <= k < removed_entries(entries, now, policy, protected).len(),
    ensures
        ({
            let gone = removed_entries(entries, now, policy, protected)[k];
            &&& entries.contains(gone)
            &&& protected matches Some(path) ==> components(path) != components(gone.path@)
            &&& policy.max_size_bytes is None ==> policy.max_age is Some && now@
                - gone.last_used@ > policy.max_age->0@
        }),
{
    let items = candidates(entries, now, policy, protected);
    let all = removals(items, policy);
    lemma_removal_is_candidate(items, policy, k);
    let i = items.index_of(all[k]);
    lemma_candidate_is_entry(entries, now, policy, protected, i);
    assert(entries.contains(entries[i]));
}

/// Every entry last used longer ago than the age limit goes, unless it is the protected one.
pub proof fn lemma_old_entries_go(
    entries: Seq<CacheEntry>,
    now: Timestamp,
    policy: ArtifactCachePrunePolicy,
    protected: Option<Seq<u8>>,
    i: int,
)
    requires
        0 <= i < entries.len(),
        policy.max_age is Some,
        now@ - entries[i].last_used@ > policy.max_age->0@,
        protected matches Some(path) ==> components(path) != components(entries[i].path@),
    ensures
        removed_entries(entries, now, policy, protected).contains(entries[i]),
{
    lemma_candidate_is_entry(entries, now, policy, protected, i);
    lemma_expired_entries_go(entries, now, policy, protected, i);
    let removed = removals(candidates(entries, now, policy, protected), policy);
    let k = choose|k: int| 0 <= k < removed.len() && (#[trigger] removed[k]).entry == entries[i];
    assert(removed_entries(entries, now, policy, protected)[k] == entries[i]);
}

/// The size limit is met, or everything but the protected entry is gone.
pub proof fn lemma_what_stays_is_within_the_limit(
    entries: Seq<CacheEntry>,
    now: Timestamp,
    policy: ArtifactCachePrunePolicy,
    protected: Option<Seq<u8>>,
)
    requires
        policy.max_size_bytes is Some,
        plain_sum(sizes(entries)) <= u64::MAX,
    ensures
        ({
            let gone = removed_entries(entries, now, policy, protected);
            ||| plain_sum(sizes(entries)) - plain_sum(sizes(gone)) <= policy.max_size_bytes->0
            ||| forall|i: int| #![trigger entries[i]]
                0 <= i < entries.len() && (protected matches Some(path) ==> components(path)
                    != components(entries[i].path@)) ==> gone.contains(entries[i])
        }),
{
    let items = candidates(entries, now, policy, protected);
    let all = removals(items, policy);
    let gone = removed_entries(entries, now, policy, protected);
    let view = |item: PruneCandidate| item.entry;
    assert(items.map_values(view) =~= entries);
    lemma_total_is_sum(items);
    lemma_total_is_sum(all);
    lemma_removals_are_bounded(items, policy);
    lemma_size_limit_is_met(entries, now, policy, protected);
    if plain_sum(sizes(entries)) - plain_sum(sizes(gone)) > policy.max_size_bytes->0 {
        let free = |item: PruneCandidate| !item.protected && !item.removed;
        let some = ranked(items).filter(free);
        let aged = aged_out(items);
        assert(all == aged + some);
        assert forall|i: int| #![trigger entries[i]]
            0 <= i < entries.len() && (protected matches Some(path) ==> components(path)
                != components(entries[i].path@)) implies gone.contains(entries[i]) by {
            lemma_candidate_is_entry(entries, now, policy, protected, i);
            if items[i].removed {
                lemma_old_entries_go(entries, now, policy, protected, i);
            } else {
                lemma_ranked_members(items);
                assert(ranked(items).contains(items[i]));
                let m = ranked(items).index_of(items[i]);
                lemma_filter_keeps(ranked(items), free, m);
                let k = choose|k: int| 0 <= k < some.len() && some[k] == items[i];
                assert(all[aged.len() + k] == items[i]);
                assert(gone[aged.len() + k] == entries[i]);
            }
        }
    }
}

proof fn lemma_sized_out_needs_each(
    items: Seq<PruneCandidate>,
    before: nat,
    removed: nat,
    limit: nat,
)
    requires
        sized_out(items, before, removed, limit).len() > 0,
    ensures
        retained(
            before,
            capped(removed + total_bytes(sized_out(items, before, removed, limit).drop_last())),
        ) > limit,
    decreases items.len(),
{
    if items[0].protected || items[0].removed {
        lemma_sized_out_needs_each(items.drop_first(), before, removed, limit);
    } else {
        let more = removed + items[0].entry.bytes as nat;
        let chosen = sized_out(items, before, removed, limit);
        let tail = sized_out(items.drop_first(), before, more, limit);
        if tail.len() > 0 {
            lemma_sized_out_needs_each(items.drop_first(), before, more, limit);
            assert(chosen.drop_last() =~= seq![items[0]] + tail.drop_last());
            lemma_total_append(seq![items[0]], tail.drop_last());
            assert(total_bytes(seq![items[0]]) == items[0].entry.bytes) by {
                reveal_with_fuel(total_bytes, 2);
            }
        } else {
            assert(chosen.drop_last() =~= seq![]);
            assert(total_bytes(chosen.drop_last()) == 0);
        }
    }
}

/// The size limit removes no more than it has to: one removal less would leave too much. And it
/// takes the least recently used first: where an entry goes for its size, every other one that
/// was used before it and may go is gone too.
pub proof fn lemma_size_limit_takes_the_least_recently_used(
    entries: Seq<CacheEntry>,
    now: Timestamp,
    policy: ArtifactCachePrunePolicy,
    protected: Option<Seq<u8>>,
    k: int,
)
    requires
        policy.max_size_bytes is Some,
        plain_sum(sizes(entries)) <= u64::MAX,
        0 <= k < removed_entries(entries, now, policy, protected).len(),
        ({
            let gone = removed_entries(entries, now, policy, protected)[k];
            policy.max_age matches Some(limit) ==> now@ - gone.last_used@ <= limit@
        }),
    ensures
        ({
            let gone = removed_entries(entries, now, policy, protected);
            &&& plain_sum(sizes(entries)) - plain_sum(sizes(gone.drop_last()))
                > policy.max_size_bytes->0
            &&& forall|i: int| #![trigger entries[i]]
                0 <= i < entries.len() && entries[i].last_used@ < gone[k].last_used@ && (
                protected matches Some(path) ==> components(path) != components(entries[i].path@))
                    ==> gone.contains(entries[i])
        }),
{
    let items = candidates(entries, now, policy, protected);
    let all = removals(items, policy);
    let gone = removed_entries(entries, now, policy, protected);
    let view = |item: PruneCandidate| item.entry;
    let aged = aged_out(items);
    let limit = policy.max_size_bytes->0 as nat;
    let before = capped(total_bytes(items));
    let sized = sized_out(ranked(items), before, total_bytes(aged), limit);
    let free = |item: PruneCandidate| !item.protected && !item.removed;
    let some = ranked(items).filter(free);
    lemma_removal_is_candidate(items, policy, k);
    let m = items.index_of(all[k]);
    lemma_candidate_is_entry(entries, now, policy, protected, m);
    assert(k >= aged.len());
    assert(items.map_values(view) =~= entries);
    lemma_total_is_sum(items);
    lemma_total_is_sum(all.drop_last());
    assert(all.drop_last().map_values(view) =~= gone.drop_last());
    lemma_sized_out_needs_each(ranked(items), before, total_bytes(aged), limit);
    assert(all.drop_last() =~= aged + sized.drop_last());
    lemma_total_append(aged, sized.drop_last());
    lemma_removals_are_bounded(items, policy);
    lemma_total_is_sum(all);
    assert(all =~= all.drop_last().push(all.last()));
    assert(total_bytes(all) == total_bytes(all.drop_last()) + all.last().entry.bytes);
    lemma_sized_out_first(ranked(items), before, total_bytes(aged), limit);
    lemma_ranked_by_last_use(items);
    assert forall|i: int| #![trigger entries[i]]
        0 <= i < entries.len() && entries[i].last_used@ < gone[k].last_used@ && (
        protected matches Some(path) ==> components(path) != components(
            entries[i].path@,
        )) implies gone.contains(entries[i]) by {
        lemma_candidate_is_entry(entries, now, policy, protected, i);
        if items[i].removed {
            lemma_old_entries_go(entries, now, policy, protected, i);
        } else {
            lemma_ranked_members(items);
            assert(ranked(items).contains(items[i]));
            let at = ranked(items).index_of(items[i]);
            lemma_filter_keeps(ranked(items), free, at);
            let place = choose|place: int| 0 <= place < some.len() && some[place] == items[i];
            lemma_filter_by_last_use(ranked(items), free);
            assert(sized[k - aged.len()] == some[k - aged.len()]);
            assert(all[k] == sized[k - aged.len()]);
            if place >= k - aged.len() {
                if place > k - aged.len() {
                    assert(some[k - aged.len()].entry.last_used@ <= some[place].entry.last_used@);
                }
                assert(false);
            }
            assert(sized[place] == some[place]);
            assert(all[aged.len() + place] == items[i]);
            assert(gone[aged.len() + place] == entries[i]);
        }
    }
}

proof fn lemma_filter_by_last_use(items: Seq<PruneCandidate>, keep: spec_fn(PruneCandidate) -> bool)
    requires
        by_last_use(items),
    ensures
        by_last_use(items.filter(keep)),
    decreases items.len(),
{
    reveal(Seq::filter);
    if items.len() > 0 {
        let shorter = items.drop_last();
        let (before, all) = (shorter.filter(keep), items.filter(keep));
        assert forall|i: int, j: int|
            #![trigger shorter[i], shorter[j]]
            0 <= i < j < shorter.len() implies shorter[i].entry.last_used@
            <= shorter[j].entry.last_used@ by {
            assert(items[i] == shorter[i] && items[j] == shorter[j]);
        }
        lemma_filter_by_last_use(shorter, keep);
        assert forall|i: int, j: int|
            #![trigger all[i], all[j]]
            0 <= i < j < all.len() implies all[i].entry.last_used@ <= all[j].entry.last_used@ by {
            assert(all[i] == before[i]);
            if j < before.len() {
                assert(all[j] == before[j]);
            } else {
                assert(before.contains(before[i]));
                shorter.lemma_filter_contains_rev(keep, before[i]);
                let m = shorter.index_of(before[i]);
                assert(items[m] == before[i]);
                assert(items[items.len() - 1] == all[j]);
            }
        }
    }
}

spec fn is_this(entry: CacheEntry) -> spec_fn(PruneCandidate) -> nat {
    |item: PruneCandidate| if item.entry == entry { 1 } else { 0 }
}

proof fn lemma_weight_is_count(items: Seq<PruneCandidate>, entry: CacheEntry)
    ensures
        weight(items, is_this(entry)) == items.map_values(
            |item: PruneCandidate| item.entry,
        ).to_multiset().count(entry),
    decreases items.len(),
{
    broadcast use vstd::seq_lib::group_to_multiset_ensures;

    let view = |item: PruneCandidate| item.entry;
    if items.len() == 0 {
        assert(items.map_values(view) =~= Seq::<CacheEntry>::empty());
    } else {
        lemma_weight_is_count(items.drop_last(), entry);
        assert(items.map_values(view) =~= items.drop_last().map_values(view).push(
            items.last().entry,
        ));
    }
}

/// No entry is removed more often than it is there.
pub proof fn lemma_entries_go_once(
    entries: Seq<CacheEntry>,
    now: Timestamp,
    policy: ArtifactCachePrunePolicy,
    protected: Option<Seq<u8>>,
    entry: CacheEntry,
)
    ensures
        removed_entries(entries, now, policy, protected).to_multiset().count(entry)
            <= entries.to_multiset().count(entry),
{
    let items = candidates(entries, now, policy, protected);
    assert(items.map_values(|item: PruneCandidate| item.entry) =~= entries);
    lemma_weight_is_count(items, entry);
    lemma_weight_is_count(removals(items, policy), entry);
    lemma_removals_weigh_no_more(items, policy, is_this(entry));
}

/// What a pruning pass reports adds up: it counts the entries and sizes that it was given and
/// those that it removes, each held at the largest number where it would exceed it.
pub proof fn lemma_prune_report_adds_up(
    entries: Seq<CacheEntry>,
    now: Timestamp,
    policy: ArtifactCachePrunePolicy,
    protected: Option<Seq<u8>>,
    plan: PrunePlan,
)
    requires
        ({
            let items = candidates(entries, now, policy, protected);
            let removed = removals(items, policy);
            &&& byte_strings(plan.removals@) == candidate_paths(removed)
            &&& plan.report == (ArtifactCachePruneReport {
                entries_scanned: entries.len() as usize,
                entries_removed: removed.len() as usize,
                bytes_before: capped(total_bytes(items)) as u64,
                bytes_removed: capped(total_bytes(removed)) as u64,
                uncommitted_directories_removed: 0,
                uncommitted_bytes_removed: 0,
            })
        }),
        entries.len() <= usize::MAX,
    ensures
        ({
            let gone = removed_entries(entries, now, policy, protected);
            let (before, removed) = (plain_sum(sizes(entries)), plain_sum(sizes(gone)));
            &&& plan.removals@.len() == gone.len()
            &&& forall|k: int|
                0 <= k < gone.len() ==> (#[trigger] plan.removals@[k])@ == gone[k].path@
            &&& plan.report.entries_scanned == entries.len()
            &&& plan.report.entries_removed == gone.len()
            &&& before <= u64::MAX ==> plan.report.bytes_before == before
                && plan.report.bytes_removed == removed
            &&& before > u64::MAX ==> plan.report.bytes_before == u64::MAX
            &&& removed > u64::MAX ==> plan.report.bytes_removed == u64::MAX
        }),
{
    let items = candidates(entries, now, policy, protected);
    let all = removals(items, policy);
    let gone = removed_entries(entries, now, policy, protected);
    assert(items.map_values(|item: PruneCandidate| item.entry) =~= entries);
    lemma_total_is_sum(items);
    lemma_total_is_sum(all);
    lemma_removals_are_bounded(items, policy);
    assert(byte_strings(plan.removals@).len() == plan.removals@.len());
    assert forall|k: int| 0 <= k < gone.len() implies (#[trigger] plan.removals@[k])@
        == gone[k].path@ by {
        assert(byte_strings(plan.removals@)[k] == plan.removals@[k]@);
        assert(candidate_paths(all)[k] == all[k].entry.path@);
    }
}

/// Sum of a list of lengths.
pub open spec fn total_length(lengths: Seq<u64>) -> nat
    decreases lengths.len(),
{
    if lengths.len() == 0 {
        0
    } else {
        total_length(lengths.drop_last()) + lengths.last() as nat
    }
}

/// A walk over a directory that adds up the lengths of everything that is no directory.
pub struct DirectorySizeWalk {
    pending: Vec<Vec<u8>>,
    total: u64,
    lengths: Ghost<Seq<u64>>,
}

impl DirectorySizeWalk {
    /// Paths still to be looked at; the last one comes next.
    pub closed spec fn pending(&self) -> Seq<Seq<u8>> {
        byte_strings(self.pending@)
    }

    /// Lengths met so far.
    pub closed spec fn lengths(&self) -> Seq<u64> {
        self.lengths@
    }

    /// Whether the total is that of the lengths.
    pub closed spec fn wf(&self) -> bool {
        self.total == capped(total_length(self.lengths@))
    }

    /// Start at `path`.
    pub fn new(path: &[u8]) -> (walk: Self)
        ensures
            walk.wf(),
            walk.pending() == seq![path@],
            walk.lengths() == Seq::<u64>::empty(),
    {
        let mut pending: Vec<Vec<u8>> = Vec::new();
        pending.push(copy_bytes(path));
        assert(byte_strings(pending@) =~= seq![path@]);
        DirectorySizeWalk { pending, total: 0, lengths: Ghost(Seq::empty()) }
    }

    /// Take the next path to look at, without following a final symbolic link.
    pub fn next(&mut self) -> (path: Option<Vec<u8>>)
        requires
            old(self).wf(),
        ensures
            final(self).wf(),
            final(self).lengths() == old(self).lengths(),
            path is None == (old(self).pending().len() == 0),
            path is None ==> final(self).pending() == old(self).pending(),
            path matches Some(found) ==> {
                &&& found@ == old(self).pending().last()
                &&& final(self).pending() == old(self).pending().drop_last()
            },
    {
        let ghost before = self.pending@;
        let path = self.pending.pop();
        proof {
            if before.len() > 0 {
                assert(byte_strings(self.pending@) =~= byte_strings(before).drop_last());
                assert(byte_strings(before).last() == before.last()@);
            }
        }
        path
    }

    /// The path is a directory that holds `entry`.
    pub fn directory_entry(&mut self, entry: Vec<u8>)
        requires
            old(self).wf(),
        ensures
            final(self).wf(),
            final(self).lengths() == old(self).lengths(),
            final(self).pending() == old(self).pending().push(entry@),
    {
        let ghost before = self.pending@;
        self.pending.push(entry);
        assert(byte_strings(self.pending@) =~= byte_strings(before).push(entry@));
    }

    /// The path is no directory and has this length.
    pub fn file(&mut self, length: u64)
        requires
            old(self).wf(),
        ensures
            final(self).wf(),
            final(self).pending() == old(self).pending(),
            final(self).lengths() == old(self).lengths().push(length),
    {
        let ghost before = self.lengths@;
        proof {
            self.lengths@ = before.push(length);
            assert(self.lengths@.drop_last() =~= before);
        }
        self.total = self.total.saturating_add(length);
    }

    /// The logical size of everything met, at most `u64::MAX`.
    pub fn finish(self) -> (bytes: u64)
        requires
            self.wf(),
        ensures
            bytes == capped(total_length(self.lengths())),
    {
        self.total
    }
}

/// Whether a directory name is a SHA-256 digest in lowercase or uppercase hexadecimal.
pub open spec fn is_sha256_name(name: Seq<u8>) -> bool {
    name.len() == 64 && forall|i: int| 0 <= i < 64 ==> is_hex_byte(#[trigger] name[i])
}

/// Whether a byte is an ASCII hexadecimal digit.
pub open spec fn is_hex_byte(byte: u8) -> bool {
    48 <= byte <= 57 || 97 <= byte <= 102 || 65 <= byte <= 70
}

/// Whether a directory name is a SHA-256 digest, so that pruning may remove the directory.
pub fn is_sha256_directory(name: &[u8]) -> (eligible: bool)
    ensures
        eligible == is_sha256_name(name@),
{
    if name.len() != 64 {
        return false;
    }
    let mut at: usize = 0;
    while at < 64
        invariant
            at <= 64,
            name.len() == 64,
            forall|i: int| 0 <= i < at ==> is_hex_byte(#[trigger] name@[i]),
        decreases 64 - at,
    {
        let byte = name[at];
        if !((byte >= 48 && byte <= 57) || (byte >= 97 && byte <= 102) || (byte >= 65 && byte
            <= 70)) {
            assert(!is_hex_byte(name@[at as int]));
            return false;
        }
        at = at + 1;
    }
    true
}

/// A completed maintenance pass as its schedule marker records it.
#[derive(Clone, Debug)]
pub struct MaintenanceMarker {
    /// Identity of the policy that the pass applied.
    pub identity: String,
    /// When the pass was recorded.
    pub performed: Timestamp,
}

/// Whether a pass is due: without an interval or a matching recent pass it always is.
pub open spec fn maintenance_due(
    marker: Option<MaintenanceMarker>,
    interval: Option<Duration>,
    identity: Seq<char>,
    now: int,
) -> bool {
    match (interval, marker) {
        (Some(interval), Some(marker)) => {
            ||| marker.identity@ != identity
            ||| now < marker.performed@
            ||| age_of(now, marker.performed@) >= interval@
        },
        _ => true,
    }
}

/// Decide whether a maintenance pass is due at `now`.
pub fn cache_maintenance_due(
    marker: &Option<MaintenanceMarker>,
    interval: Option<Duration>,
    identity: &str,
    now: Timestamp,
) -> (due: bool)
    ensures
        due == maintenance_due(*marker, interval, identity@, now@),
{
    match (interval, marker) {
        (Some(interval), Some(marker)) => {
            !text_equal(marker.identity.as_str(), identity) || now.is_before(marker.performed)
                || !now.age_below(marker.performed, interval)
        },
        _ => true,
    }
}

/// Whether an attempted retention pass is recorded, whatever it came to: only a schedule asks when
/// the last one was.
pub fn attempt_is_recorded(interval: Option<Duration>) -> (recorded: bool)
    ensures
        recorded == interval is Some,
{
    interval.is_some()
}

/// What an attempted retention pass comes to, once it was recorded where that was asked for.
///
/// A failure of either is reported and fails nothing else.
pub fn attempted_maintenance(
    performed: Result<ArtifactCachePruneReport, String>,
    recorded: Option<Result<(), String>>,
) -> (maintenance: ArtifactCacheMaintenance)
    ensures
        match (performed, recorded) {
            (Err(message), _) => maintenance == (ArtifactCacheMaintenance::PruneFailed { message }),
            (Ok(_), Some(Err(message))) => maintenance == (ArtifactCacheMaintenance::PruneFailed {
                message,
            }),
            (Ok(report), _) => maintenance == ArtifactCacheMaintenance::Pruned(report),
        },
{
    match (performed, recorded) {
        (Err(message), _) => ArtifactCacheMaintenance::PruneFailed { message },
        (Ok(_), Some(Err(message))) => ArtifactCacheMaintenance::PruneFailed { message },
        (Ok(report), _) => ArtifactCacheMaintenance::Pruned(report),
    }
}

/// A zero interval and a changed policy both make a pass due at once.
pub proof fn lemma_due_at_once(
    marker: Option<MaintenanceMarker>,
    interval: Option<Duration>,
    identity: Seq<char>,
    now: int,
)
    requires
        interval is None || interval->0@ == 0 || marker is None || marker->0.identity@ != identity,
    ensures
        maintenance_due(marker, interval, identity, now),
{
}

/// A pass under limits other than those of the last recorded pass is due at once, however recent
/// that pass was.
pub proof fn lemma_changed_limits_are_due(
    marker: MaintenanceMarker,
    interval: Option<Duration>,
    recorded_age: Option<Duration>,
    recorded_size_bytes: Option<u64>,
    max_age: Option<Duration>,
    max_size_bytes: Option<u64>,
    now: int,
)
    requires
        marker.identity@ == limits_identity(recorded_age, recorded_size_bytes),
        recorded_age != max_age || recorded_size_bytes != max_size_bytes,
    ensures
        maintenance_due(Some(marker), interval, limits_identity(max_age, max_size_bytes), now),
{
    if marker.identity@ == limits_identity(max_age, max_size_bytes) {
        lemma_limits_identity_injective(
            recorded_age,
            recorded_size_bytes,
            max_age,
            max_size_bytes,
        );
    }
}

/// A pass is due unless it is scheduled and one of the same limits was recorded less than an
/// interval ago.
pub proof fn lemma_passes_are_due(
    marker: Option<MaintenanceMarker>,
    interval: Option<Duration>,
    identity: Seq<char>,
    now: int,
)
    ensures
        !maintenance_due(marker, interval, identity, now) <==> {
            &&& interval is Some
            &&& marker is Some
            &&& marker->0.identity@ == identity
            &&& 0 <= now - marker->0.performed@ < interval->0@
        },
{
}

/// Whether a byte is a hexadecimal digit, small or large.
pub open spec fn is_digit_of_sixteen(byte: u8) -> bool {
    ||| byte as char == '0' || byte as char == '1' || byte as char == '2' || byte as char == '3'
    ||| byte as char == '4' || byte as char == '5' || byte as char == '6' || byte as char == '7'
    ||| byte as char == '8' || byte as char == '9' || byte as char == 'a' || byte as char == 'b'
    ||| byte as char == 'c' || byte as char == 'd' || byte as char == 'e' || byte as char == 'f'
    ||| byte as char == 'A' || byte as char == 'B' || byte as char == 'C' || byte as char == 'D'
    ||| byte as char == 'E' || byte as char == 'F'
}

/// The names of cache entries are those of sixty-four hexadecimal digits.
pub proof fn lemma_entry_names(name: Seq<u8>)
    ensures
        is_sha256_name(name) <==> name.len() == 64 && forall|i: int|
            0 <= i < name.len() ==> is_digit_of_sixteen(#[trigger] name[i]),
{
    if is_sha256_name(name) {
        assert forall|i: int| 0 <= i < name.len() implies is_digit_of_sixteen(
            #[trigger] name[i],
        ) by {
            assert(is_hex_byte(name[i]));
        }
    }
    if name.len() == 64 && forall|i: int|
        0 <= i < name.len() ==> is_digit_of_sixteen(#[trigger] name[i]) {
        assert forall|i: int| 0 <= i < 64 implies is_hex_byte(#[trigger] name[i]) by {
            assert(is_digit_of_sixteen(name[i]));
        }
    }
}

/// The size of a directory is the sum of the sizes of its files, or the greatest size that can be
/// told where the sum is greater.
pub proof fn lemma_sizes_are_summed(lengths: Seq<u64>)
    ensures
        total_length(lengths) == plain_sum(lengths.map_values(|length: u64| length as int)),
        capped(total_length(lengths)) == if total_length(lengths) <= 18_446_744_073_709_551_615 {
            total_length(lengths)
        } else {
            18_446_744_073_709_551_615
        },
    decreases lengths.len(),
{
    let view = |length: u64| length as int;
    if lengths.len() > 0 {
        lemma_sizes_are_summed(lengths.drop_last());
        assert(lengths.map_values(view).drop_last() =~= lengths.drop_last().map_values(view));
    }
}

/// Entries are removed in the order of their last uses; of two that were last used at once, the one
/// whose path stands first goes first.
pub proof fn lemma_order_of_removal(left: PruneCandidate, right: PruneCandidate)
    ensures
        left.entry.last_used@ < right.entry.last_used@ ==> left.precedes(&right)
            && !right.precedes(&left),
        left.entry.last_used@ == right.entry.last_used@ ==> (left.precedes(&right) <==> path_less(
            left.entry.path@,
            right.entry.path@,
        )),
{
}

} // verus!

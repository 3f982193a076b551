//! Exact durations and their saturating arithmetic.

use vstd::prelude::*;
use vstd::string::*;

verus! {

/// Largest representable duration, in nanoseconds.
pub const MAX_NANOS: u128 = 18_446_744_073_709_551_615_999_999_999;

/// A span of time measured in whole nanoseconds.
#[derive(Clone, Copy, Debug, PartialEq, Eq, PartialOrd, Ord, Hash, Structural)]
pub struct Duration {
    nanos: u128,
}

impl View for Duration {
    type V = nat;

    closed spec fn view(&self) -> nat {
        self.nanos as nat
    }
}

impl Duration {
    /// No span is longer than the largest representable duration.
    #[verifier::type_invariant]
    closed spec fn is_representable(self) -> bool {
        self@ <= MAX_NANOS
    }
}

/// Spans of the same length are the same span.
pub proof fn lemma_length_determines_span(left: Duration, right: Duration)
    requires
        left@ == right@,
    ensures
        left == right,
{
}

/// The sum of two spans, held at the largest representable duration.
pub open spec fn saturating_sum(left: nat, right: nat) -> nat {
    if left + right <= MAX_NANOS {
        left + right
    } else {
        MAX_NANOS as nat
    }
}

impl Duration {
    /// A span of `nanos` nanoseconds, held at the largest representable duration.
    pub fn from_nanos(nanos: u128) -> (duration: Self)
        ensures
            duration@ == saturating_sum(nanos as nat, 0),
    {
        if nanos <= MAX_NANOS {
            Duration { nanos }
        } else {
            Duration { nanos: MAX_NANOS }
        }
    }

    /// A span of `secs` whole seconds.
    pub fn from_secs(secs: u64) -> (duration: Self)
        ensures
            duration@ == secs * 1_000_000_000,
    {
        Duration { nanos: secs as u128 * 1_000_000_000 }
    }

    /// A span of `millis` whole milliseconds.
    pub fn from_millis(millis: u64) -> (duration: Self)
        ensures
            duration@ == millis * 1_000_000,
    {
        Duration { nanos: millis as u128 * 1_000_000 }
    }

    /// The empty span.
    pub fn zero() -> (duration: Self)
        ensures
            duration@ == 0,
    {
        Duration { nanos: 0 }
    }

    /// Length of the span in nanoseconds.
    pub fn as_nanos(self) -> (nanos: u128)
        ensures
            nanos == self@,
            nanos <= MAX_NANOS,
    {
        proof {
            use_type_invariant(self);
        }
        self.nanos
    }

    /// The sum of both spans, held at the largest representable duration.
    ///
    /// The empty span changes nothing.
    pub fn saturating_add(self, other: Self) -> (sum: Self)
        ensures
            sum@ == saturating_sum(self@, other@),
            other@ == 0 ==> sum == self,
            self@ == 0 ==> sum == other,
    {
        proof {
            use_type_invariant(self);
            use_type_invariant(other);
        }
        Self::from_nanos(self.nanos.saturating_add(other.nanos))
    }

    /// What is left of this span after `other`, or the empty span.
    pub fn saturating_sub(self, other: Self) -> (rest: Self)
        ensures
            rest@ == if self@ >= other@ { (self@ - other@) as nat } else { 0 },
    {
        proof {
            use_type_invariant(self);
        }
        Self::from_nanos(self.nanos.saturating_sub(other.nanos))
    }
}

/// A span of `secs` seconds and `nanos` nanoseconds as the standard library renders it.
pub uninterp spec fn span_text(secs: u64, nanos: u32) -> Seq<char>;

/// `Debug` of `std::time::Duration`: a span of `secs` seconds and `nanos` nanoseconds as text.
#[verifier::external_body]
fn render_span(secs: u64, nanos: u32) -> (text: String)
    requires
        nanos < 1_000_000_000,
    ensures
        text@ == span_text(secs, nanos),
{
    format!("{:?}", std::time::Duration::new(secs, nanos))
}

/// A span of `nanos` nanoseconds as text.
pub open spec fn duration_text(nanos: nat) -> Seq<char> {
    span_text((nanos / 1_000_000_000) as u64, (nanos % 1_000_000_000) as u32)
}

/// An optional duration as text.
pub open spec fn optional_duration_text(duration: Option<Duration>) -> Seq<char> {
    match duration {
        None => "None"@,
        Some(found) => "Some("@ + duration_text(found@) + ")"@,
    }
}

impl Duration {
    /// The span as text.
    pub fn render(self) -> (text: String)
        ensures
            text@ == duration_text(self@),
    {
        render_span((self.nanos / 1_000_000_000) as u64, (self.nanos % 1_000_000_000) as u32)
    }
}

/// An optional span as text.
pub fn render_optional(duration: Option<Duration>) -> (text: String)
    ensures
        text@ == optional_duration_text(duration),
{
    match duration {
        None => "None".to_owned(),
        Some(found) => {
            let mut text = "Some(".to_owned();
            text.append(found.render().as_str());
            text.append(")");
            text
        },
    }
}

/// The sum of two optional spans; nothing counts as the empty span beside a span.
pub open spec fn optional_sum(left: Option<Duration>, right: Option<Duration>, sum: Option<Duration>) -> bool {
    match (left, right) {
        (None, None) => sum is None,
        (Some(only), None) | (None, Some(only)) => sum == Some(only),
        (Some(a), Some(b)) => sum is Some && sum->0@ == saturating_sum(a@, b@),
    }
}

/// Add two optional spans; nothing counts as the empty span beside a span.
pub fn saturating_add_optional_duration(
    left: Option<Duration>,
    right: Option<Duration>,
) -> (sum: Option<Duration>)
    ensures
        optional_sum(left, right, sum),
{
    match (left, right) {
        (None, None) => None,
        (Some(only), None) | (None, Some(only)) => Some(only),
        (Some(a), Some(b)) => Some(a.saturating_add(b)),
    }
}

/// A point in time, in nanoseconds after the Unix epoch.
#[derive(Clone, Copy, Debug, PartialEq, Eq, PartialOrd, Ord, Hash, Structural)]
pub struct Timestamp {
    nanos: i128,
}

impl View for Timestamp {
    type V = int;

    closed spec fn view(&self) -> int {
        self.nanos as int
    }
}

impl Timestamp {
    /// Nanoseconds from the epoch to the last representable time.
    pub const MAX_NANOS_SINCE_EPOCH: u128 = 9_223_372_036_854_775_807_999_999_999;

    /// Nanoseconds from the epoch to the last representable time.
    pub open spec fn max_nanos() -> nat {
        9_223_372_036_854_775_807_999_999_999
    }

    /// The time `nanos` nanoseconds after the epoch.
    pub fn from_nanos_since_epoch(nanos: u128) -> (time: Self)
        requires
            nanos <= Self::max_nanos(),
        ensures
            time@ == nanos,
    {
        Timestamp { nanos: nanos as i128 }
    }

    /// The time `nanos` nanoseconds before the epoch.
    pub fn from_nanos_before_epoch(nanos: u128) -> (time: Self)
        requires
            nanos <= Self::max_nanos(),
        ensures
            time@ == -(nanos as int),
    {
        Timestamp { nanos: 0 - nanos as i128 }
    }

    /// Nanoseconds since the epoch, or `None` for a time before it.
    pub fn nanos_since_epoch(self) -> (nanos: Option<u128>)
        ensures
            nanos is Some == (self@ >= 0),
            nanos matches Some(value) ==> value == self@,
    {
        if self.nanos >= 0 {
            Some(self.nanos as u128)
        } else {
            None
        }
    }

    /// Whether both are the same point in time.
    pub fn is_same(self, other: Self) -> (same: bool)
        ensures
            same == (self@ == other@),
    {
        self.nanos == other.nanos
    }

    /// Whether this time comes before `other`.
    pub fn is_before(self, other: Self) -> (before: bool)
        ensures
            before == (self@ < other@),
    {
        self.nanos < other.nanos
    }

    fn nanos_after(self, earlier: Self) -> (nanos: u128)
        requires
            self@ >= earlier@,
        ensures
            nanos == self@ - earlier@,
    {
        if earlier.nanos >= 0 {
            (self.nanos - earlier.nanos) as u128
        } else if self.nanos >= 0 {
            self.nanos as u128 + (-(earlier.nanos + 1)) as u128 + 1
        } else {
            (self.nanos - earlier.nanos) as u128
        }
    }

    /// Whether `earlier` lies more than `limit` before this time.
    pub fn age_exceeds(self, earlier: Self, limit: Duration) -> (exceeds: bool)
        ensures
            exceeds == (self@ >= earlier@ && self@ - earlier@ > limit@),
    {
        self.nanos >= earlier.nanos && self.nanos_after(earlier) > limit.nanos
    }

    /// Whether `earlier` lies less than `limit` before this time.
    pub fn age_below(self, earlier: Self, limit: Duration) -> (below: bool)
        ensures
            below == (self@ >= earlier@ && self@ - earlier@ < limit@),
    {
        self.nanos >= earlier.nanos && self.nanos_after(earlier) < limit.nanos
    }
}

/// Spans add up, but for a sum beyond the largest representable span, which is that span.
pub proof fn lemma_spans_add_up(left: nat, right: nat)
    ensures
        left + right <= 18_446_744_073_709_551_615_999_999_999 ==> saturating_sum(left, right)
            == left + right,
        left + right >= 18_446_744_073_709_551_615_999_999_999 ==> saturating_sum(left, right)
            == 18_446_744_073_709_551_615_999_999_999,
        saturating_sum(left, right) == saturating_sum(right, left),
{
}

/// Of two optional spans the known ones are added, and none is made up.
pub proof fn lemma_optional_spans_add_up(
    left: Option<Duration>,
    right: Option<Duration>,
    sum: Option<Duration>,
)
    requires
        optional_sum(left, right, sum),
    ensures
        sum is None <==> left is None && right is None,
        left is Some && right is None ==> sum == left,
        left is None && right is Some ==> sum == right,
        left is Some && right is Some && left->0@ + right->0@
            <= 18_446_744_073_709_551_615_999_999_999 ==> sum->0@ == left->0@ + right->0@,
{
}

} // verus!

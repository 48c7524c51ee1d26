use vstd::prelude::*;
use crate::dedup::Deduplicator;
use crate::types::{CleanedInterest, InterestOverTime, FULL_SCALE};
use crate::validate::{
    filter_nulls,
    is_valid,
    lemma_cleaned_values_in_range,
    max_value,
    normalize,
    normalized_entries,
    positive_entries,
    validate_record,
    ValidationError,
};

verus! {

/// Whether a message key names the record kind that the pipeline cleans.
pub open spec fn is_tracked_kind(key: Seq<char>) -> bool {
    key == "interest_over_time"@
}

/// Whether `key` names the record kind that the pipeline cleans.
pub fn tracked_kind(key: &String) -> (r: bool)
    ensures
        r == is_tracked_kind(key@),
{
    let expected = String::from_str("interest_over_time");
    *key == expected
}

/// The payload of one intake message, as far as decoding got.
pub enum Intake {
    /// The message has no payload, or it is not UTF-8 text.
    Missing,
    /// The payload is text but does not decode as a record.
    Malformed,
    /// The payload decoded as a record.
    Decoded(InterestOverTime),
}

/// Why a message was not forwarded.
#[derive(Debug, Clone, Copy, PartialEq, Eq, Structural)]
pub enum SkipReason {
    /// The key names another record kind.
    OtherKind,
    /// The message carries no text payload.
    EmptyPayload,
    /// The payload was rejected by validation.
    Invalid(ValidationError),
    /// A record with the same timestamp was processed before.
    Duplicate,
    /// No measurement is above zero.
    AllNonPositive,
}

/// What to do with one message.
pub enum Action {
    /// Publish this record downstream.
    Forward(CleanedInterest),
    /// Drop the message.
    Skip(SkipReason),
}

/// The timestamp that a message marks as seen: that of a record of the
/// tracked kind which passes validation.
pub open spec fn admitted_timestamp(key: Seq<char>, intake: Intake) -> Option<Seq<char>> {
    match intake {
        Intake::Decoded(r) => if is_tracked_kind(key) && is_valid(r) {
            Some(r.timestamp@)
        } else {
            None
        },
        _ => None,
    }
}

/// The seen set after one message.
pub open spec fn seen_after(seen: Set<Seq<char>>, key: Seq<char>, intake: Intake) -> Set<Seq<char>> {
    match admitted_timestamp(key, intake) {
        Some(ts) => seen.insert(ts),
        None => seen,
    }
}

/// The seen set after a sequence of messages, in arrival order.
pub open spec fn seen_after_all(seen: Set<Seq<char>>, events: Seq<(Seq<char>, Intake)>) -> Set<
    Seq<char>,
>
    decreases events.len(),
{
    if events.len() == 0 {
        seen
    } else {
        seen_after(seen_after_all(seen, events.drop_last()), events.last().0, events.last().1)
    }
}

/// Why a message is dropped, checked stage by stage; `None` when it is forwarded.
pub open spec fn skip_reason(seen: Set<Seq<char>>, key: Seq<char>, intake: Intake) -> Option<
    SkipReason,
> {
    if !is_tracked_kind(key) {
        Some(SkipReason::OtherKind)
    } else {
        match intake {
            Intake::Missing => Some(SkipReason::EmptyPayload),
            Intake::Malformed => Some(SkipReason::Invalid(ValidationError::Decode)),
            Intake::Decoded(r) => if !is_valid(r) {
                Some(SkipReason::Invalid(ValidationError::EmptyField))
            } else if seen.contains(r.timestamp@) {
                Some(SkipReason::Duplicate)
            } else if positive_entries(r.data@).len() == 0 {
                Some(SkipReason::AllNonPositive)
            } else {
                None
            },
        }
    }
}

/// `c` is `r` with its non-positive measurements removed and the rest normalized.
pub open spec fn cleans_to(r: InterestOverTime, c: CleanedInterest) -> bool {
    let kept = positive_entries(r.data@);
    &&& c.msg_type == r.msg_type
    &&& c.fetched_at == r.fetched_at
    &&& c.timestamp == r.timestamp
    &&& c.data@ == normalized_entries(kept)
    &&& c.is_normalized == (max_value(kept) > FULL_SCALE)
}

/// `action` forwards the cleaned form of the decoded record in `intake`.
pub open spec fn forwards(intake: Intake, action: Action) -> bool {
    match (intake, action) {
        (Intake::Decoded(r), Action::Forward(c)) => cleans_to(r, c),
        _ => false,
    }
}

/// The consume-transform-publish decisions, one message at a time.
pub struct Pipeline {
    dedup: Deduplicator,
}

impl View for Pipeline {
    type V = Set<Seq<char>>;

    /// The timestamps seen so far.
    closed spec fn view(&self) -> Set<Seq<char>> {
        self.dedup@
    }
}

impl Pipeline {
    /// A pipeline that has seen no message.
    pub fn new() -> (p: Self)
        ensures
            p@ == Set::<Seq<char>>::empty(),
    {
        Pipeline { dedup: Deduplicator::new() }
    }

    /// Decides one message: routing, validation, deduplication, filtering and
    /// normalization, in that order.
    pub fn step(&mut self, key: &String, intake: Intake) -> (action: Action)
        ensures
            final(self)@ == seen_after(old(self)@, key@, intake),
            match skip_reason(old(self)@, key@, intake) {
                Some(reason) => action == Action::Skip(reason),
                None => forwards(intake, action),
            },
    {
        if !tracked_kind(key) {
            return Action::Skip(SkipReason::OtherKind);
        }
        let decoded = match intake {
            Intake::Missing => {
                return Action::Skip(SkipReason::EmptyPayload);
            },
            Intake::Malformed => {
                return Action::Skip(SkipReason::Invalid(ValidationError::Decode));
            },
            Intake::Decoded(r) => r,
        };
        let record = match validate_record(decoded) {
            Ok(r) => r,
            Err(e) => {
                return Action::Skip(SkipReason::Invalid(e));
            },
        };
        if self.dedup.is_duplicate(record.timestamp.as_str()) {
            return Action::Skip(SkipReason::Duplicate);
        }
        self.dedup.mark_seen(record.timestamp.clone());
        match filter_nulls(record) {
            Some(kept) => Action::Forward(normalize(kept)),
            None => Action::Skip(SkipReason::AllNonPositive),
        }
    }
}

/// A message whose key names another record kind is never forwarded and
/// leaves the seen set as it was.
pub proof fn lemma_other_kinds_skipped(seen: Set<Seq<char>>, key: Seq<char>, intake: Intake)
    requires
        !is_tracked_kind(key),
    ensures
        skip_reason(seen, key, intake) == Some(SkipReason::OtherKind),
        seen_after(seen, key, intake) == seen,
{
}

/// Every value of a forwarded record lies between 0 and 100 points.
pub proof fn lemma_forwarded_values_in_range(r: InterestOverTime, c: CleanedInterest)
    requires
        cleans_to(r, c),
    ensures
        forall|i: int| 0 <= i < c.data@.len() ==> 0 <= #[trigger] c.data@[i].1 <= FULL_SCALE,
{
    lemma_cleaned_values_in_range(r.data@);
}

proof fn lemma_timestamp_stays_seen(
    seen: Set<Seq<char>>,
    events: Seq<(Seq<char>, Intake)>,
    i: int,
    k: int,
    ts: Seq<char>,
)
    requires
        0 <= i < k <= events.len(),
        admitted_timestamp(events[i].0, events[i].1) == Some(ts),
    ensures
        seen_after_all(seen, events.take(k)).contains(ts),
    decreases k,
{
    let prefix = events.take(k);
    assert(prefix.drop_last() =~= events.take(k - 1));
    assert(prefix.last() == events[k - 1]);
    if k > i + 1 {
        lemma_timestamp_stays_seen(seen, events, i, k - 1, ts);
    }
}

/// Once a record of the tracked kind with timestamp `t` has passed
/// validation, every later one with timestamp `t` that passes validation is
/// dropped as a duplicate, whatever its measurements.
pub proof fn lemma_first_timestamp_wins(
    seen: Set<Seq<char>>,
    events: Seq<(Seq<char>, Intake)>,
    i: int,
    j: int,
)
    requires
        0 <= i < j < events.len(),
        admitted_timestamp(events[i].0, events[i].1) is Some,
        admitted_timestamp(events[j].0, events[j].1) == admitted_timestamp(
            events[i].0,
            events[i].1,
        ),
    ensures
        skip_reason(seen_after_all(seen, events.take(j)), events[j].0, events[j].1) == Some(
            SkipReason::Duplicate,
        ),
{
    let ts = admitted_timestamp(events[i].0, events[i].1)->Some_0;
    lemma_timestamp_stays_seen(seen, events, i, j, ts);
}

} // verus!

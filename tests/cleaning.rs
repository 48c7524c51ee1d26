use posts::dedup::Deduplicator;
use posts::limiter::{RateLimiter, WindowCounter};
use posts::pipeline::{tracked_kind, Action, Intake, Pipeline, SkipReason};
use posts::types::{ApiResponse, InterestOverTime, Measurement, FULL_SCALE, UNITS_PER_POINT};
use posts::validate::{filter_nulls, normalize, validate_record, ValidationError};

fn points(p: i64) -> i64 {
    p * UNITS_PER_POINT
}

fn record(timestamp: &str, fetched_at: &str, data: &[(&str, i64)]) -> InterestOverTime {
    InterestOverTime {
        msg_type: "interest_over_time".to_string(),
        fetched_at: fetched_at.to_string(),
        timestamp: timestamp.to_string(),
        data: data.iter().map(|(k, v)| (k.to_string(), *v)).collect(),
    }
}

fn value_of(data: &[Measurement], key: &str) -> i64 {
    data.iter().find(|(k, _)| k == key).map(|(_, v)| *v).expect("keyword present")
}

fn key() -> String {
    "interest_over_time".to_string()
}

#[test]
fn validation_accepts_populated_record() {
    let r = record("ts1", "t1", &[("AI", points(10))]);
    let ok = validate_record(r).expect("valid");
    assert_eq!(ok.timestamp, "ts1");
    assert_eq!(ok.fetched_at, "t1");
    assert_eq!(ok.data.len(), 1);
}

#[test]
fn validation_rejects_empty_timestamp() {
    let r = record("", "t1", &[("AI", points(10))]);
    assert!(matches!(validate_record(r), Err(ValidationError::EmptyField)));
}

#[test]
fn validation_rejects_empty_fetched_at() {
    let r = record("ts1", "", &[("AI", points(10))]);
    assert!(matches!(validate_record(r), Err(ValidationError::EmptyField)));
}

#[test]
fn validation_rejects_empty_data() {
    let r = record("ts1", "t1", &[]);
    assert!(matches!(validate_record(r), Err(ValidationError::EmptyField)));
}

#[test]
fn filter_drops_non_positive_values() {
    let r = record("ts1", "t1", &[("AI", points(5)), ("ChatGPT", 0), ("Kesehatan", -3), ("Rust", 1)]);
    let kept = filter_nulls(r).expect("something left");
    assert_eq!(kept.data, vec![("AI".to_string(), points(5)), ("Rust".to_string(), 1)]);
    assert_eq!(kept.timestamp, "ts1");
}

#[test]
fn filter_all_non_positive_gives_none() {
    let r = record("ts1", "t1", &[("AI", 0), ("ChatGPT", -1)]);
    assert!(filter_nulls(r).is_none());
}

#[test]
fn normalize_keeps_values_up_to_full_scale() {
    let r = record("ts1", "t1", &[("AI", points(40)), ("ChatGPT", points(60))]);
    let c = normalize(r);
    assert!(!c.is_normalized);
    assert_eq!(c.data, vec![("AI".to_string(), points(40)), ("ChatGPT".to_string(), points(60))]);
}

#[test]
fn normalize_boundary_exactly_one_hundred_is_not_rescaled() {
    let r = record("ts1", "t1", &[("AI", points(100)), ("ChatGPT", points(30))]);
    let c = normalize(r);
    assert!(!c.is_normalized);
    assert_eq!(value_of(&c.data, "AI"), FULL_SCALE);
    assert_eq!(value_of(&c.data, "ChatGPT"), points(30));
}

#[test]
fn normalize_rescales_against_largest() {
    let r = record("ts1", "t1", &[("AI", points(200)), ("ChatGPT", points(50)), ("Rust", points(150))]);
    let c = normalize(r);
    assert!(c.is_normalized);
    assert_eq!(value_of(&c.data, "AI"), FULL_SCALE);
    assert_eq!(value_of(&c.data, "ChatGPT"), points(25));
    assert_eq!(value_of(&c.data, "Rust"), points(75));
}

#[test]
fn normalize_rounds_toward_zero() {
    // 100 / 150 * 100 = 66.666666..., kept to the unit
    let r = record("ts1", "t1", &[("AI", points(150)), ("ChatGPT", points(100))]);
    let c = normalize(r);
    assert_eq!(value_of(&c.data, "ChatGPT"), 66_666_666);
    assert_eq!(value_of(&c.data, "AI"), FULL_SCALE);
}

#[test]
fn normalize_equal_values_above_range_become_full_scale() {
    let r = record("ts1", "t1", &[("AI", points(300)), ("ChatGPT", points(300))]);
    let c = normalize(r);
    assert!(c.is_normalized);
    assert_eq!(value_of(&c.data, "AI"), FULL_SCALE);
    assert_eq!(value_of(&c.data, "ChatGPT"), FULL_SCALE);
}

#[test]
fn normalize_handles_extreme_values() {
    let r = record("ts1", "t1", &[("AI", i64::MAX), ("ChatGPT", i64::MIN)]);
    let c = normalize(r);
    assert!(c.is_normalized);
    assert_eq!(value_of(&c.data, "AI"), FULL_SCALE);
    assert_eq!(value_of(&c.data, "ChatGPT"), -FULL_SCALE);
}

#[test]
fn end_to_end_rescales_above_range() {
    let mut p = Pipeline::new();
    let r = record("ts1", "t1", &[("AI", points(150)), ("ChatGPT", points(75))]);
    match p.step(&key(), Intake::Decoded(r)) {
        Action::Forward(c) => {
            assert!(c.is_normalized);
            assert_eq!(value_of(&c.data, "AI"), points(100));
            assert_eq!(value_of(&c.data, "ChatGPT"), points(50));
            assert_eq!(c.timestamp, "ts1");
            assert_eq!(c.fetched_at, "t1");
            assert_eq!(c.msg_type, "interest_over_time");
        }
        Action::Skip(reason) => panic!("skipped: {:?}", reason),
    }
}

#[test]
fn end_to_end_second_same_timestamp_dropped() {
    let mut p = Pipeline::new();
    let first = record("ts1", "t1", &[("AI", points(150)), ("ChatGPT", points(75))]);
    assert!(matches!(p.step(&key(), Intake::Decoded(first)), Action::Forward(_)));
    let second = record("ts1", "t2", &[("AI", points(10))]);
    assert!(matches!(p.step(&key(), Intake::Decoded(second)), Action::Skip(SkipReason::Duplicate)));
}

#[test]
fn end_to_end_all_zero_not_published() {
    let mut p = Pipeline::new();
    let r = record("ts1", "t1", &[("AI", 0), ("ChatGPT", 0)]);
    assert!(matches!(p.step(&key(), Intake::Decoded(r)), Action::Skip(SkipReason::AllNonPositive)));
}

#[test]
fn end_to_end_in_range_unchanged() {
    let mut p = Pipeline::new();
    let r = record("ts1", "t1", &[("AI", points(40)), ("ChatGPT", points(60))]);
    match p.step(&key(), Intake::Decoded(r)) {
        Action::Forward(c) => {
            assert!(!c.is_normalized);
            assert_eq!(value_of(&c.data, "AI"), points(40));
            assert_eq!(value_of(&c.data, "ChatGPT"), points(60));
        }
        Action::Skip(reason) => panic!("skipped: {:?}", reason),
    }
}

#[test]
fn routing_other_key_never_forwarded() {
    let mut p = Pipeline::new();
    let r = record("ts1", "t1", &[("AI", points(150))]);
    let other = "related_queries_top".to_string();
    assert!(matches!(p.step(&other, Intake::Decoded(r)), Action::Skip(SkipReason::OtherKind)));
    // the skipped message did not mark its timestamp
    let again = record("ts1", "t1", &[("AI", points(150))]);
    assert!(matches!(p.step(&key(), Intake::Decoded(again)), Action::Forward(_)));
}

#[test]
fn dedup_after_all_zero_record_still_blocks_timestamp() {
    let mut p = Pipeline::new();
    let zero = record("ts9", "t1", &[("AI", 0)]);
    assert!(matches!(p.step(&key(), Intake::Decoded(zero)), Action::Skip(SkipReason::AllNonPositive)));
    let later = record("ts9", "t2", &[("AI", points(20))]);
    assert!(matches!(p.step(&key(), Intake::Decoded(later)), Action::Skip(SkipReason::Duplicate)));
}

#[test]
fn invalid_record_does_not_mark_timestamp() {
    let mut p = Pipeline::new();
    let bad = record("ts1", "", &[("AI", points(20))]);
    assert!(matches!(
        p.step(&key(), Intake::Decoded(bad)),
        Action::Skip(SkipReason::Invalid(ValidationError::EmptyField))
    ));
    let good = record("ts1", "t1", &[("AI", points(20))]);
    assert!(matches!(p.step(&key(), Intake::Decoded(good)), Action::Forward(_)));
}

#[test]
fn missing_and_malformed_payloads_skipped() {
    let mut p = Pipeline::new();
    assert!(matches!(p.step(&key(), Intake::Missing), Action::Skip(SkipReason::EmptyPayload)));
    assert!(matches!(
        p.step(&key(), Intake::Malformed),
        Action::Skip(SkipReason::Invalid(ValidationError::Decode))
    ));
}

#[test]
fn tracked_kind_matches_exact_key() {
    assert!(tracked_kind(&"interest_over_time".to_string()));
    assert!(!tracked_kind(&"interest_over_time ".to_string()));
    assert!(!tracked_kind(&"unknown".to_string()));
}

#[test]
fn deduplicator_marks_and_tests() {
    let mut d = Deduplicator::new();
    assert!(!d.is_duplicate("ts1"));
    d.mark_seen("ts1".to_string());
    assert!(d.is_duplicate("ts1"));
    d.mark_seen("ts1".to_string());
    assert!(d.is_duplicate("ts1"));
    assert!(!d.is_duplicate("ts2"));
}

#[test]
fn limiter_allows_one_request_per_window() {
    let l = RateLimiter { max_requests: 1, window_ms: 60_000 };
    let (ok, c) = l.check_request(None, 1_000);
    assert!(ok);
    assert_eq!(c, WindowCounter { count: 1, started_at: 1_000 });
    let (ok, c2) = l.check_request(Some(c), 30_000);
    assert!(!ok);
    assert_eq!(c2, c);
    let (ok, c3) = l.check_request(Some(c2), 61_000);
    assert!(!ok);
    assert_eq!(c3, c);
    let (ok, c4) = l.check_request(Some(c3), 61_001);
    assert!(ok);
    assert_eq!(c4, WindowCounter { count: 1, started_at: 61_001 });
}

#[test]
fn limiter_clock_going_back_keeps_window() {
    let l = RateLimiter { max_requests: 2, window_ms: 10 };
    let start = WindowCounter { count: 1, started_at: 500 };
    let (ok, c) = l.check_request(Some(start), 100);
    assert!(ok);
    assert_eq!(c, WindowCounter { count: 2, started_at: 500 });
}

#[test]
fn api_response_success_fields() {
    let r = ApiResponse::success(201, Some(7));
    assert_eq!(r.status_code, 201);
    assert!(r.success);
    assert_eq!(r.message, "Success");
    assert_eq!(r.data, Some(7));
}

#[test]
fn forwarded_values_stay_in_range() {
    let mut p = Pipeline::new();
    let r = record("ts5", "t1", &[("AI", points(1_000_000)), ("ChatGPT", 1), ("Rust", -5)]);
    match p.step(&key(), Intake::Decoded(r)) {
        Action::Forward(c) => {
            assert_eq!(c.data.len(), 2);
            for (_, v) in &c.data {
                assert!(*v >= 0 && *v <= FULL_SCALE);
            }
            assert_eq!(value_of(&c.data, "AI"), FULL_SCALE);
            assert_eq!(value_of(&c.data, "ChatGPT"), 0);
        }
        Action::Skip(reason) => panic!("skipped: {:?}", reason),
    }
}

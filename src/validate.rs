use vstd::prelude::*;
use vstd::arithmetic::div_mod::{
    lemma_div_is_ordered,
    lemma_div_is_ordered_by_denominator,
    lemma_div_pos_is_pos,
    lemma_div_by_multiple,
};
use crate::types::{CleanedInterest, InterestOverTime, Measurement, FULL_SCALE};

verus! {

/// Why an intake payload was rejected.
#[derive(Debug, Clone, Copy, PartialEq, Eq, Structural)]
pub enum ValidationError {
    /// The payload does not decode as a record.
    Decode,
    /// `timestamp` or `fetched_at` is empty, or there are no measurements.
    EmptyField,
}

/// A decoded record may enter the pipeline: both time fields are set and it
/// carries at least one measurement.
pub open spec fn is_valid(r: InterestOverTime) -> bool {
    &&& r.timestamp@.len() > 0
    &&& r.fetched_at@.len() > 0
    &&& r.data@.len() > 0
}

/// The measurements with a value above zero, in their original order.
pub open spec fn positive_entries(s: Seq<Measurement>) -> Seq<Measurement> {
    s.filter(|m: Measurement| m.1 > 0)
}

/// No keyword occurs twice: the measurements form a mapping.
pub open spec fn keys_distinct(s: Seq<Measurement>) -> bool {
    forall|i: int, j: int| 0 <= i < j < s.len() ==> #[trigger] s[i].0@ != #[trigger] s[j].0@
}

/// The largest value, folded from the smallest `i64` (which it is when `s` is empty).
pub open spec fn max_value(s: Seq<Measurement>) -> int
    decreases s.len(),
{
    if s.len() == 0 {
        i64::MIN as int
    } else {
        let m = max_value(s.drop_last());
        if s.last().1 > m {
            s.last().1 as int
        } else {
            m
        }
    }
}

/// `v / max * 100` points in units, rounded toward zero.
pub open spec fn scaled(v: i64, max: int) -> int {
    if v >= 0 {
        (v * FULL_SCALE) / max
    } else {
        -(((-v) * FULL_SCALE) / max)
    }
}

/// The measurements after normalization: unchanged when the largest value is
/// at most 100 points, otherwise each value rescaled against the largest.
pub open spec fn normalized_entries(s: Seq<Measurement>) -> Seq<Measurement> {
    let max = max_value(s);
    if max <= FULL_SCALE {
        s
    } else {
        Seq::new(s.len(), |i: int| (s[i].0, scaled(s[i].1, max) as i64))
    }
}

/// Accepts a decoded record exactly when it is valid.
pub fn validate_record(record: InterestOverTime) -> (r: Result<InterestOverTime, ValidationError>)
    ensures
        is_valid(record) ==> r == Ok::<InterestOverTime, ValidationError>(record),
        !is_valid(record) ==> r == Err::<InterestOverTime, ValidationError>(
            ValidationError::EmptyField,
        ),
{
    if record.timestamp.as_str().is_empty() || record.fetched_at.as_str().is_empty()
        || record.data.len() == 0 {
        Err(ValidationError::EmptyField)
    } else {
        Ok(record)
    }
}

proof fn lemma_positive_entries_step(s: Seq<Measurement>, i: int)
    requires
        0 <= i < s.len(),
    ensures
        positive_entries(s.take(i + 1)) == if s[i].1 > 0 {
            positive_entries(s.take(i)).push(s[i])
        } else {
            positive_entries(s.take(i))
        },
{
    reveal(Seq::filter);
    assert(s.take(i + 1).drop_last() =~= s.take(i));
    assert(s.take(i + 1).last() == s[i]);
}

/// Filtering keeps only values above zero, and leaves nothing exactly when no
/// value is above zero.
pub proof fn lemma_filter_keeps_positive(s: Seq<Measurement>)
    ensures
        forall|i: int| 0 <= i < positive_entries(s).len() ==> #[trigger] positive_entries(s)[i].1 > 0,
        positive_entries(s).len() == 0 <==> (forall|i: int| 0 <= i < s.len() ==> #[trigger] s[i].1 <= 0),
{
    broadcast use vstd::seq_lib::group_filter_ensures;

    let pred = |m: Measurement| m.1 > 0;
    if positive_entries(s).len() == 0 {
        assert forall|i: int| 0 <= i < s.len() implies #[trigger] s[i].1 <= 0 by {
            if s[i].1 > 0 {
                s.lemma_filter_contains(pred, i);
            }
        }
    } else {
        let m = positive_entries(s)[0];
        s.lemma_filter_pred(pred, 0);
        s.lemma_filter_contains_rev(pred, m);
        let j = choose|j: int| 0 <= j < s.len() && s[j] == m;
        assert(s[j].1 > 0);
    }
}

/// Filtering keeps a subset of the measurements, so keywords stay distinct.
pub proof fn lemma_filter_keeps_keys_distinct(s: Seq<Measurement>)
    requires
        keys_distinct(s),
    ensures
        keys_distinct(positive_entries(s)),
        forall|m: Measurement| #[trigger] positive_entries(s).contains(m) ==> s.contains(m),
    decreases s.len(),
{
    reveal(Seq::filter);
    if s.len() > 0 {
        let init = s.drop_last();
        assert(keys_distinct(init)) by {
            assert forall|i: int, j: int| 0 <= i < j < init.len() implies #[trigger] init[i].0@
                != #[trigger] init[j].0@ by {
                assert(init[i] == s[i] && init[j] == s[j]);
            }
        }
        lemma_filter_keeps_keys_distinct(init);
        let sub = positive_entries(init);
        assert(positive_entries(s) == if s.last().1 > 0 { sub.push(s.last()) } else { sub });
        assert forall|m: Measurement| #[trigger] positive_entries(s).contains(m) implies s.contains(m) by {
            if sub.contains(m) {
                let k = choose|k: int| 0 <= k < init.len() && init[k] == m;
                assert(s[k] == m);
            } else {
                assert(s[s.len() - 1] == m);
            }
        }
        if s.last().1 > 0 {
            let out = sub.push(s.last());
            assert forall|i: int, j: int| 0 <= i < j < out.len() implies #[trigger] out[i].0@
                != #[trigger] out[j].0@ by {
                if j == out.len() - 1 {
                    assert(sub.contains(out[i]));
                    let k = choose|k: int| 0 <= k < init.len() && init[k] == out[i];
                    assert(s[k] == init[k]);
                } else {
                    assert(out[i] == sub[i] && out[j] == sub[j]);
                }
            }
        }
    }
}

/// Every value of a record that went through filtering and normalization
/// lies between 0 and 100 points.
pub proof fn lemma_cleaned_values_in_range(s: Seq<Measurement>)
    ensures
        forall|i: int|
            0 <= i < normalized_entries(positive_entries(s)).len() ==> 0
                <= #[trigger] normalized_entries(positive_entries(s))[i].1 <= FULL_SCALE,
{
    let kept = positive_entries(s);
    let out = normalized_entries(kept);
    lemma_filter_keeps_positive(s);
    lemma_max_value_bounds(kept);
    let max = max_value(kept);
    assert forall|i: int| 0 <= i < out.len() implies 0 <= #[trigger] out[i].1 <= FULL_SCALE by {
        if max > FULL_SCALE {
            lemma_scaled_range(kept[i].1, max);
        }
    }
}

/// Removes every measurement whose value is not above zero; `None` when none is left.
pub fn filter_nulls(record: InterestOverTime) -> (r: Option<InterestOverTime>)
    ensures
        match r {
            Some(kept) => {
                &&& kept.msg_type == record.msg_type
                &&& kept.fetched_at == record.fetched_at
                &&& kept.timestamp == record.timestamp
                &&& kept.data@ == positive_entries(record.data@)
                &&& kept.data@.len() > 0
            },
            None => positive_entries(record.data@).len() == 0,
        },
        r is None <==> (forall|i: int|
            0 <= i < record.data@.len() ==> #[trigger] record.data@[i].1 <= 0),
        keys_distinct(record.data@) ==> match r {
            Some(kept) => keys_distinct(kept.data@),
            None => true,
        },
{
    proof {
        lemma_filter_keeps_positive(record.data@);
        if keys_distinct(record.data@) {
            lemma_filter_keeps_keys_distinct(record.data@);
        }
    }
    let InterestOverTime { msg_type, fetched_at, timestamp, data } = record;
    let mut kept: Vec<Measurement> = Vec::new();
    let mut i: usize = 0;
    while i < data.len()
        invariant
            i <= data@.len(),
            kept@ == positive_entries(data@.take(i as int)),
        decreases data@.len() - i,
    {
        proof {
            lemma_positive_entries_step(data@, i as int);
        }
        if data[i].1 > 0 {
            kept.push((data[i].0.clone(), data[i].1));
        }
        i += 1;
    }
    assert(data@.take(data@.len() as int) =~= data@);
    if kept.len() == 0 {
        None
    } else {
        Some(InterestOverTime { msg_type, fetched_at, timestamp, data: kept })
    }
}

proof fn lemma_max_value_step(s: Seq<Measurement>, i: int)
    requires
        0 <= i < s.len(),
    ensures
        max_value(s.take(i + 1)) == if s[i].1 > max_value(s.take(i)) {
            s[i].1 as int
        } else {
            max_value(s.take(i))
        },
{
    assert(s.take(i + 1).drop_last() =~= s.take(i));
    assert(s.take(i + 1).last() == s[i]);
}

/// The largest value bounds every value, fits an `i64`, and is one of the
/// values when there are any.
pub proof fn lemma_max_value_bounds(s: Seq<Measurement>)
    ensures
        forall|i: int| 0 <= i < s.len() ==> #[trigger] s[i].1 <= max_value(s),
        i64::MIN <= max_value(s) <= i64::MAX,
        s.len() > 0 ==> exists|i: int| 0 <= i < s.len() && #[trigger] s[i].1 == max_value(s),
    decreases s.len(),
{
    if s.len() > 0 {
        let init = s.drop_last();
        lemma_max_value_bounds(init);
        assert forall|i: int| 0 <= i < s.len() implies #[trigger] s[i].1 <= max_value(s) by {
            if i < s.len() - 1 {
                assert(s[i] == init[i]);
            }
        }
        if s.last().1 != max_value(s) {
            let j = choose|j: int| 0 <= j < init.len() && #[trigger] init[j].1 == max_value(init);
            assert(s[j] == init[j]);
        }
    }
}

/// A rescaled value keeps the sign of `v`, does not grow in magnitude, and is
/// at most 100 points when `v` is at most `max`.
proof fn lemma_scaled_range(v: i64, max: int)
    requires
        max > FULL_SCALE,
    ensures
        v >= 0 ==> 0 <= scaled(v, max) <= v,
        v < 0 ==> v <= scaled(v, max) <= 0,
        v <= max ==> scaled(v, max) <= FULL_SCALE,
        v == max ==> scaled(v, max) == FULL_SCALE,
{
    let w: int = if v >= 0 { v as int } else { -v };
    let product = w * FULL_SCALE;
    assert(product >= 0) by (nonlinear_arith)
        requires
            w >= 0,
            FULL_SCALE > 0,
            product == w * FULL_SCALE,
    ;
    lemma_div_pos_is_pos(product, max);
    lemma_div_is_ordered_by_denominator(product, FULL_SCALE as int, max);
    lemma_div_by_multiple(w, FULL_SCALE as int);
    if 0 <= v && v <= max {
        assert(v * FULL_SCALE <= max * FULL_SCALE) by (nonlinear_arith)
            requires v <= max;
        lemma_div_is_ordered(v * FULL_SCALE, max * FULL_SCALE, max);
        assert(max * FULL_SCALE == FULL_SCALE * max) by (nonlinear_arith);
        lemma_div_by_multiple(FULL_SCALE as int, max);
    }
}

/// `v` rescaled against `max`, as `scaled` states it.
fn scale_value(v: i64, max: i64) -> (r: i64)
    requires
        max > FULL_SCALE,
    ensures
        r == scaled(v, max as int),
{
    let wide: i128 = if v >= 0 { v as i128 } else { -(v as i128) };
    assert(wide * 100_000_000 <= 0x8000_0000_0000_0000i128 * 100_000_000) by (nonlinear_arith)
        requires 0 <= wide <= 0x8000_0000_0000_0000i128;
    let product: i128 = wide * (FULL_SCALE as i128);
    let q: i128 = product / (max as i128);
    proof {
        lemma_scaled_range(v, max as int);
    }
    if v >= 0 {
        q as i64
    } else {
        (-q) as i64
    }
}

/// Rescales the measurements into 0..100 points when the largest exceeds 100
/// points; otherwise copies them unchanged. `is_normalized` reports whether
/// rescaling took place.
pub fn normalize(record: InterestOverTime) -> (c: CleanedInterest)
    ensures
        c.msg_type == record.msg_type,
        c.fetched_at == record.fetched_at,
        c.timestamp == record.timestamp,
        c.data@ == normalized_entries(record.data@),
        c.is_normalized == (max_value(record.data@) > FULL_SCALE),
        max_value(record.data@) <= FULL_SCALE ==> c.data@ == record.data@ && !c.is_normalized,
        keys_distinct(record.data@) ==> keys_distinct(c.data@),
{
    let InterestOverTime { msg_type, fetched_at, timestamp, data } = record;
    let mut max: i64 = i64::MIN;
    let mut i: usize = 0;
    while i < data.len()
        invariant
            i <= data@.len(),
            max == max_value(data@.take(i as int)),
        decreases data@.len() - i,
    {
        proof {
            lemma_max_value_step(data@, i as int);
        }
        if data[i].1 > max {
            max = data[i].1;
        }
        i += 1;
    }
    assert(data@.take(data@.len() as int) =~= data@);
    if max <= FULL_SCALE {
        return CleanedInterest { msg_type, fetched_at, timestamp, data, is_normalized: false };
    }
    let mut out: Vec<Measurement> = Vec::new();
    let mut k: usize = 0;
    while k < data.len()
        invariant
            k <= data@.len(),
            max == max_value(data@),
            max > FULL_SCALE,
            out@.len() == k,
            forall|j: int| 0 <= j < k ==> #[trigger] out@[j] == (data@[j].0, scaled(data@[j].1, max as int) as i64),
        decreases data@.len() - k,
    {
        let value = scale_value(data[k].1, max);
        out.push((data[k].0.clone(), value));
        k += 1;
    }
    assert(out@ =~= normalized_entries(data@));
    CleanedInterest { msg_type, fetched_at, timestamp, data: out, is_normalized: true }
}

/// When the largest value `M` exceeds 100 points, every value becomes
/// `v / M * 100` points (rounded toward zero) and the largest result is exactly
/// 100 points.
pub proof fn lemma_normalize_scaling(s: Seq<Measurement>)
    requires
        max_value(s) > FULL_SCALE,
    ensures
        normalized_entries(s).len() == s.len(),
        forall|i: int| 0 <= i < s.len() ==> #[trigger] normalized_entries(s)[i] == (s[i].0, scaled(s[i].1, max_value(s)) as i64),
        max_value(normalized_entries(s)) == FULL_SCALE,
{
    let max = max_value(s);
    let out = normalized_entries(s);
    lemma_max_value_bounds(s);
    lemma_max_value_bounds(out);
    assert forall|i: int| 0 <= i < s.len() implies #[trigger] out[i].1 <= FULL_SCALE by {
        lemma_scaled_range(s[i].1, max);
    }
    let j = choose|j: int| 0 <= j < s.len() && #[trigger] s[j].1 == max;
    lemma_scaled_range(s[j].1, max);
    assert(out[j].1 == FULL_SCALE);
    let k = choose|k: int| 0 <= k < out.len() && #[trigger] out[k].1 == max_value(out);
}

} // verus!

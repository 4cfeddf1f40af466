//! Mean power and active duration of one process over a snapshot sequence.
use vstd::prelude::*;
use crate::decimal::Decimal;
use crate::error::AggregationError;
use crate::measure::{collect_matches, match_set, Measure, Reading};

verus! {

/// Scale of the aggregates: powers in microwatts and durations in seconds,
/// both to a millionth.
pub const MICRO_SCALE: u32 = 6;

pub open spec fn sum(s: Seq<u64>) -> nat
    decreases s.len(),
{
    if s.len() == 0 {
        0
    } else {
        sum(s.drop_last()) + s.last() as nat
    }
}

/// The powers of a match set, in its order.
pub open spec fn powers(readings: Seq<Reading>) -> Seq<u64> {
    readings.map_values(|r: Reading| r.consumption)
}

/// The arithmetic mean of `s` in millionths, rounded down.
pub open spec fn mean_units(s: Seq<u64>) -> nat
    recommends
        s.len() > 0,
{
    (sum(s) * 1_000_000) / s.len()
}

/// The mean of `s` as a decimal with six fractional digits; none for an empty `s`.
pub open spec fn mean_of(s: Seq<u64>) -> Option<Decimal> {
    if s.len() == 0 {
        None
    } else {
        Some(Decimal { units: mean_units(s) as u128, scale: MICRO_SCALE })
    }
}

/// The mean power of a match set, in microwatts.
pub open spec fn average_of(readings: Seq<Reading>) -> Result<Decimal, AggregationError> {
    match mean_of(powers(readings)) {
        Some(d) => Ok(d),
        None => Err(AggregationError::EmptyMatchSet),
    }
}

/// The time from the first to the last reading of a match set, in seconds.
pub open spec fn duration_of(readings: Seq<Reading>) -> Result<Decimal, AggregationError> {
    if readings.len() == 0 {
        Err(AggregationError::EmptyMatchSet)
    } else if readings.last().timestamp < readings[0].timestamp {
        Err(AggregationError::InvalidMeasurement)
    } else {
        Ok(
            Decimal {
                units: (readings.last().timestamp - readings[0].timestamp) as u128,
                scale: MICRO_SCALE,
            },
        )
    }
}

/// The mean is the exact mean rounded down to a millionth: the count times
/// the mean is at most the sum, and one millionth more would exceed it.
pub proof fn lemma_mean_is_rounded_quotient(s: Seq<u64>)
    requires
        s.len() > 0,
    ensures
        mean_units(s) * s.len() <= sum(s) * 1_000_000,
        sum(s) * 1_000_000 < (mean_units(s) + 1) * s.len(),
{
    let t = (sum(s) * 1_000_000) as int;
    let c = s.len() as int;
    vstd::arithmetic::div_mod::lemma_fundamental_div_mod(t, c);
    vstd::arithmetic::div_mod::lemma_mod_bound(t, c);
    let q = t / c;
    assert(q * c <= t && t < (q + 1) * c) by (nonlinear_arith)
        requires
            t == c * q + t % c,
            0 <= t % c < c,
    ;
}

proof fn lemma_sum_bound(s: Seq<u64>)
    ensures
        sum(s) <= s.len() * (u64::MAX as int),
    decreases s.len(),
{
    if s.len() > 0 {
        lemma_sum_bound(s.drop_last());
    }
}

/// The mean of a non-empty sequence of powers fits in a `Decimal`: it is at
/// most the largest power.
pub proof fn lemma_mean_fits(s: Seq<u64>)
    requires
        s.len() > 0,
    ensures
        mean_units(s) <= (u64::MAX as int) * 1_000_000,
        mean_units(s) <= u128::MAX,
{
    lemma_sum_bound(s);
    let n = s.len() as int;
    let t = (sum(s) * 1_000_000) as int;
    assert(t <= ((u64::MAX as int) * 1_000_000) * n) by (nonlinear_arith)
        requires
            sum(s) <= n * (u64::MAX as int),
            t == sum(s) * 1_000_000,
            n > 0,
    ;
    vstd::arithmetic::div_mod::lemma_div_is_ordered(t, ((u64::MAX as int) * 1_000_000) * n, n);
    vstd::arithmetic::div_mod::lemma_div_multiples_vanish((u64::MAX as int) * 1_000_000, n);
    assert(((u64::MAX as int) * 1_000_000) * n == n * ((u64::MAX as int) * 1_000_000));
}

/// A match set of one reading lasts no time, and its mean power is that
/// reading's power.
pub proof fn lemma_single_reading(r: Reading)
    ensures
        duration_of(seq![r]) == Ok::<Decimal, AggregationError>(
            Decimal { units: 0, scale: MICRO_SCALE },
        ),
        average_of(seq![r]) == Ok::<Decimal, AggregationError>(
            Decimal { units: (r.consumption * 1_000_000) as u128, scale: MICRO_SCALE },
        ),
{
    let p = powers(seq![r]);
    assert(p =~= seq![r.consumption]);
    assert(p.drop_last() =~= Seq::<u64>::empty());
    assert(sum(Seq::<u64>::empty()) == 0);
    assert(sum(p) == r.consumption);
}

/// Without a matching reading, the mean power and the duration both fail
/// with `EmptyMatchSet`.
pub proof fn lemma_empty_match_set(readings: Seq<Reading>)
    requires
        readings.len() == 0,
    ensures
        average_of(readings) == Err::<Decimal, AggregationError>(AggregationError::EmptyMatchSet),
        duration_of(readings) == Err::<Decimal, AggregationError>(AggregationError::EmptyMatchSet),
{
}

/// The arithmetic mean of `data`, to a millionth (rounded down); none when
/// `data` is empty.
pub fn mean(data: Vec<u64>) -> (r: Option<Decimal>)
    ensures
        r == mean_of(data@),
        r is Some ==> r->0.units == mean_units(data@),
{
    let n = data.len();
    if n == 0 {
        return None;
    }
    let mut total: u128 = 0;
    let mut i: usize = 0;
    assert(data@.subrange(0, 0) =~= Seq::<u64>::empty());
    while i < n
        invariant
            n == data@.len(),
            i <= n,
            total == sum(data@.subrange(0, i as int)),
            total <= i * (u64::MAX as int),
        decreases n - i,
    {
        assert(data@.subrange(0, i + 1).drop_last() =~= data@.subrange(0, i as int));
        proof {
            let k = i as int;
            assert((k + 1) * (u64::MAX as int) <= (u64::MAX as int) * (u64::MAX as int))
                by (nonlinear_arith)
                requires
                    k + 1 <= u64::MAX,
            ;
            assert(total + data@[k] <= (k + 1) * (u64::MAX as int)) by (nonlinear_arith)
                requires
                    total <= k * (u64::MAX as int),
                    data@[k] <= u64::MAX,
            ;
        }
        total = total + data[i] as u128;
        i = i + 1;
    }
    assert(data@.subrange(0, n as int) =~= data@);
    let count = n as u128;
    let q = total / count;
    let rem = total % count;
    proof {
        let t = total as int;
        let c = count as int;
        vstd::arithmetic::div_mod::lemma_fundamental_div_mod(t, c);
        assert(q <= u64::MAX) by (nonlinear_arith)
            requires
                t <= c * (u64::MAX as int),
                t == c * (q as int) + (rem as int),
                c > 0,
                rem >= 0,
        ;
        assert(t * 1_000_000 == (rem as int) * 1_000_000 + (q as int * 1_000_000) * c)
            by (nonlinear_arith)
            requires
                t == c * (q as int) + (rem as int),
        ;
        vstd::arithmetic::div_mod::lemma_hoist_over_denominator(
            (rem as int) * 1_000_000,
            q as int * 1_000_000,
            c as nat,
        );
        assert(rem < count);
    }
    let units = q * 1_000_000 + (rem * 1_000_000) / count;
    Some(Decimal { units, scale: MICRO_SCALE })
}

/// Mean power of `process_name` over `measures`, in microwatts; fails with
/// `EmptyMatchSet` when no snapshot holds a reading of it.
pub fn average_consumption(measures: &Vec<Measure>, process_name: &str) -> (r: Result<
    Decimal,
    AggregationError,
>)
    ensures
        r == average_of(match_set(measures@, process_name@)),
{
    let readings = collect_matches(measures, process_name);
    let mut consumptions: Vec<u64> = Vec::new();
    let mut i: usize = 0;
    while i < readings.len()
        invariant
            i <= readings@.len(),
            consumptions@ == powers(readings@.subrange(0, i as int)),
        decreases readings@.len() - i,
    {
        consumptions.push(readings[i].consumption);
        i = i + 1;
        assert(consumptions@ =~= powers(readings@.subrange(0, i as int)));
    }
    assert(readings@.subrange(0, i as int) =~= readings@);
    match mean(consumptions) {
        Some(d) => Ok(d),
        None => Err(AggregationError::EmptyMatchSet),
    }
}

/// Seconds from the first to the last reading of `process_name` in
/// `measures`; fails with `EmptyMatchSet` when there is none, and with
/// `InvalidMeasurement` when the last reading is older than the first.
pub fn process_duration_seconds(measures: &Vec<Measure>, process_name: &str) -> (r: Result<
    Decimal,
    AggregationError,
>)
    ensures
        r == duration_of(match_set(measures@, process_name@)),
{
    let readings = collect_matches(measures, process_name);
    let n = readings.len();
    if n == 0 {
        return Err(AggregationError::EmptyMatchSet);
    }
    let first = readings[0].timestamp;
    let last = readings[n - 1].timestamp;
    if last < first {
        return Err(AggregationError::InvalidMeasurement);
    }
    Ok(Decimal { units: (last - first) as u128, scale: MICRO_SCALE })
}

} // verus!

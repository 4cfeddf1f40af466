//! Energy from a mean power and a duration.
use vstd::prelude::*;
use crate::decimal::{lemma_pow10_monotone, pow10, pow10_u128, Decimal, MAX_SCALE};
use crate::error::AggregationError;

verus! {

/// Energy in microwatt-seconds: the exact product of a power in microwatts
/// and a duration in seconds.
pub open spec fn energy_uws_of(power: Decimal, duration: Decimal) -> Result<
    Decimal,
    AggregationError,
> {
    if power.units * duration.units > u128::MAX || power.scale + duration.scale > MAX_SCALE {
        Err(AggregationError::InvalidMeasurement)
    } else {
        Ok(
            Decimal {
                units: (power.units * duration.units) as u128,
                scale: (power.scale + duration.scale) as u32,
            },
        )
    }
}

/// Fewest fractional digits of a watt-hour figure.
pub const WH_SCALE: u32 = 18;

/// Scale of the watt-hour figure of a product with `scale` fractional digits:
/// six more than the product has, and never fewer than `WH_SCALE`.
pub open spec fn wh_scale(scale: nat) -> nat {
    if scale + 6 > WH_SCALE {
        scale + 6
    } else {
        WH_SCALE as nat
    }
}

/// Energy in watt-hours of a power in microwatts over a duration in seconds:
/// the product in microwatt-seconds divided by `3600 * 10^6`, rounded down to
/// `wh_scale` fractional digits, so at least eighteen whatever the inputs' scales.
pub open spec fn energy_wh_of(power: Decimal, duration: Decimal) -> Result<
    Decimal,
    AggregationError,
> {
    let scale = (power.scale + duration.scale) as nat;
    let product = power.units * duration.units;
    let units = product * pow10((wh_scale(scale) - scale - 6) as nat) / 3600;
    if product > u128::MAX || wh_scale(scale) > MAX_SCALE || units > u128::MAX {
        Err(AggregationError::InvalidMeasurement)
    } else {
        Ok(Decimal { units: units as u128, scale: wh_scale(scale) as u32 })
    }
}

/// The same power in watts: a watt is a million microwatts, so only the
/// scale moves.
pub fn convert_microwatts_to_watts(micro_watts: Decimal) -> (r: Decimal)
    requires
        micro_watts.scale + 6 <= MAX_SCALE,
    ensures
        r == (Decimal { units: micro_watts.units, scale: (micro_watts.scale + 6) as u32 }),
{
    Decimal { units: micro_watts.units, scale: micro_watts.scale + 6 }
}

/// Energy in microwatt-seconds (power in microwatts, duration in seconds).
/// Fails with `InvalidMeasurement` when the product does not fit.
pub fn get_energy_uws(power_microwatts: Decimal, duration_seconds: Decimal) -> (r: Result<
    Decimal,
    AggregationError,
>)
    ensures
        r == energy_uws_of(power_microwatts, duration_seconds),
{
    if power_microwatts.scale > MAX_SCALE || duration_seconds.scale > MAX_SCALE
        - power_microwatts.scale {
        return Err(AggregationError::InvalidMeasurement);
    }
    match power_microwatts.units.checked_mul(duration_seconds.units) {
        None => Err(AggregationError::InvalidMeasurement),
        Some(units) => Ok(
            Decimal { units, scale: power_microwatts.scale + duration_seconds.scale },
        ),
    }
}

/// Energy in watt-hours (power in microwatts, duration in seconds): the power
/// in watts times the duration in hours, to at least `WH_SCALE` fractional
/// digits. Fails with `InvalidMeasurement` when a figure does not fit.
pub fn get_energy_wh(power_microwatts: Decimal, duration_seconds: Decimal) -> (r: Result<
    Decimal,
    AggregationError,
>)
    ensures
        r == energy_wh_of(power_microwatts, duration_seconds),
{
    if power_microwatts.scale > MAX_SCALE - 6 || duration_seconds.scale > MAX_SCALE - 6
        - power_microwatts.scale {
        return Err(AggregationError::InvalidMeasurement);
    }
    let watts = convert_microwatts_to_watts(power_microwatts);
    let product = match watts.units.checked_mul(duration_seconds.units) {
        None => return Err(AggregationError::InvalidMeasurement),
        Some(p) => p,
    };
    // watt-seconds to watt-hours, with extra digits up to WH_SCALE
    let scale = watts.scale + duration_seconds.scale;
    let extra: u32 = if scale < WH_SCALE {
        WH_SCALE - scale
    } else {
        0
    };
    let k = pow10_u128(extra);
    let q = product / 3600;
    let rem = product % 3600;
    proof {
        let kk = k as int;
        let p = product as int;
        vstd::arithmetic::div_mod::lemma_fundamental_div_mod(p, 3600);
        assert(kk <= 1_000_000_000_000) by {
            reveal_with_fuel(pow10, 13);
            lemma_pow10_monotone(extra as nat, 12);
        }
        assert(p * kk == (rem as int) * kk + (q as int * kk) * 3600) by (nonlinear_arith)
            requires
                p == 3600 * (q as int) + (rem as int),
        ;
        vstd::arithmetic::div_mod::lemma_hoist_over_denominator((rem as int) * kk, q as int * kk, 3600);
        assert((rem as int) * kk < 3600 * 1_000_000_000_000) by (nonlinear_arith)
            requires
                0 <= rem < 3600,
                0 <= kk <= 1_000_000_000_000,
        ;
        assert((rem as int) * kk / 3600 >= 0) by (nonlinear_arith)
            requires
                0 <= rem,
                0 <= kk,
        ;
        assert(q as int * kk <= p * kk / 3600) by (nonlinear_arith)
            requires
                p * kk / 3600 == (rem as int) * kk / 3600 + q as int * kk,
                (rem as int) * kk / 3600 >= 0,
        ;
    }
    let high = match q.checked_mul(k) {
        None => return Err(AggregationError::InvalidMeasurement),
        Some(h) => h,
    };
    match high.checked_add(rem * k / 3600) {
        None => Err(AggregationError::InvalidMeasurement),
        Some(units) => Ok(Decimal { units, scale: scale + extra }),
    }
}

} // verus!

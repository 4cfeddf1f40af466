use scaph2cc::decimal::Decimal;
use scaph2cc::energy::{convert_microwatts_to_watts, get_energy_uws, get_energy_wh};
use scaph2cc::error::AggregationError;

#[test]
fn test_convert() {
    let power_microwatts = Decimal::new(1000000, 0);
    let duration_seconds = Decimal::new(3600, 0);
    let e_wh = get_energy_wh(power_microwatts, duration_seconds).unwrap();
    assert_eq!(e_wh.to_text(), "1");

    let r_wh = convert_microwatts_to_watts(Decimal::new(1000000, 0));
    assert_eq!(r_wh.to_text(), "1");
}

#[test]
fn one_megawatt_micro_for_an_hour_is_one_watt_hour_at_aggregate_scale() {
    // a mean power and a duration as the aggregation gives them: six fractional digits
    let power = Decimal::new(1_000_000_000_000, 6);
    let duration = Decimal::new(3_600_000_000, 6);
    let wh = get_energy_wh(power, duration).unwrap();
    assert_eq!(wh, Decimal::new(1_000_000_000_000_000_000, 18));
    assert_eq!(wh.to_text(), "1");
}

#[test]
fn energy_uws_of_123_microwatts_for_10_seconds() {
    let e = get_energy_uws(Decimal::new(123, 0), Decimal::new(10, 0)).unwrap();
    assert_eq!(e, Decimal::new(1230, 0));
    assert_eq!(e.to_text(), "1230");
    let e = get_energy_uws(Decimal::new(123_000_000, 6), Decimal::new(10_000_000, 6)).unwrap();
    assert_eq!(e.to_text(), "1230");
}

#[test]
fn energy_wh_of_123_microwatts_for_10_seconds() {
    let wh = get_energy_wh(Decimal::new(123, 0), Decimal::new(10, 0)).unwrap();
    // 1230 microwatt-seconds in watt-hours, to eighteen fractional digits
    assert_eq!(wh, Decimal::new(341_666_666_666, 18));
    assert_eq!(wh.to_text(), "0.000000341666666666");
    let approx: f64 = wh.to_text().parse().unwrap();
    assert!((approx - 3.416667e-7).abs() < 1e-12);
    let wh = get_energy_wh(Decimal::new(123_000_000, 6), Decimal::new(10_000_000, 6)).unwrap();
    assert_eq!(wh.to_text(), "0.000000341666666666");
}

#[test]
fn convert_moves_the_scale_only() {
    let w = convert_microwatts_to_watts(Decimal::new(2_500_000, 6));
    assert_eq!(w, Decimal::new(2_500_000, 12));
    assert_eq!(w.to_text(), "0.0000025");
}

#[test]
fn energy_overflow_is_an_invalid_measurement() {
    let big = Decimal::new(u128::MAX / 2, 0);
    assert_eq!(get_energy_uws(big, Decimal::new(3, 0)), Err(AggregationError::InvalidMeasurement));
    assert_eq!(get_energy_wh(big, Decimal::new(3, 0)), Err(AggregationError::InvalidMeasurement));
    assert_eq!(
        get_energy_uws(Decimal::new(1, 20), Decimal::new(1, 19)),
        Err(AggregationError::InvalidMeasurement)
    );
    assert_eq!(
        get_energy_wh(Decimal::new(1, 20), Decimal::new(1, 13)),
        Err(AggregationError::InvalidMeasurement)
    );
    assert_eq!(get_energy_wh(Decimal::new(1, 20), Decimal::new(1, 12)), Ok(Decimal::new(0, 38)));
}

#[test]
fn watt_hour_precision_does_not_depend_on_input_scale() {
    let whole = get_energy_wh(Decimal::new(123, 0), Decimal::new(10, 0)).unwrap();
    let micro = get_energy_wh(Decimal::new(123_000_000, 6), Decimal::new(10_000_000, 6)).unwrap();
    let mixed = get_energy_wh(Decimal::new(1230, 1), Decimal::new(10, 0)).unwrap();
    assert_eq!(whole, micro);
    assert_eq!(whole, mixed);
    // beyond eighteen digits the figure keeps six more than the product has
    let fine = get_energy_wh(Decimal::new(1, 10), Decimal::new(3600, 10)).unwrap();
    assert_eq!(fine, Decimal::new(1, 26));
    assert_eq!(fine.to_text(), format!("0.{}1", "0".repeat(25)));
}

#[test]
fn watt_hour_figure_that_does_not_fit_is_invalid() {
    // the product fits, but not with twelve more digits
    let r = get_energy_wh(Decimal::new(u128::MAX / 10, 0), Decimal::new(10, 0));
    assert_eq!(r, Err(AggregationError::InvalidMeasurement));
    assert!(get_energy_uws(Decimal::new(u128::MAX / 10, 0), Decimal::new(10, 0)).is_ok());
}

use scaph2cc::decimal::{Decimal, MAX_SCALE};

#[test]
fn text_is_shortest() {
    assert_eq!(Decimal::new(2_500_000, 6).to_text(), "2.5");
    assert_eq!(Decimal::new(2_000_000, 6).to_text(), "2");
    assert_eq!(Decimal::new(0, 6).to_text(), "0");
    assert_eq!(Decimal::new(0, 0).to_text(), "0");
    assert_eq!(Decimal::new(1230, 0).to_text(), "1230");
    assert_eq!(Decimal::new(5, 3).to_text(), "0.005");
    assert_eq!(Decimal::new(7_269_277_500_000, 6).to_text(), "7269277.5");
    assert_eq!(Decimal::new(2_036_772, 6).to_text(), "2.036772");
    assert_eq!(Decimal::new(100, 2).to_text(), "1");
    assert_eq!(Decimal::new(1, 45).to_text(), format!("0.{}1", "0".repeat(44)));
}

#[test]
fn text_reads_back() {
    assert_eq!(Decimal::from_text("2.5", 6), Some(Decimal::new(2_500_000, 6)));
    assert_eq!(Decimal::from_text("2", 6), Some(Decimal::new(2_000_000, 6)));
    assert_eq!(Decimal::from_text("0.000001", 6), Some(Decimal::new(1, 6)));
    assert_eq!(Decimal::from_text("1230", 0), Some(Decimal::new(1230, 0)));
    // leading and trailing zeros are read as well
    assert_eq!(Decimal::from_text("007.50", 6), Some(Decimal::new(7_500_000, 6)));
}

#[test]
fn malformed_text_is_refused() {
    assert_eq!(Decimal::from_text("", 6), None);
    assert_eq!(Decimal::from_text(".5", 6), None);
    assert_eq!(Decimal::from_text("5.", 6), None);
    assert_eq!(Decimal::from_text("1.2.3", 6), None);
    assert_eq!(Decimal::from_text("-1", 6), None);
    assert_eq!(Decimal::from_text("1e3", 6), None);
    assert_eq!(Decimal::from_text("1.1234567", 6), None);
    assert_eq!(Decimal::from_text("0.5", 0), None);
}

#[test]
fn text_beyond_u128_is_refused() {
    assert_eq!(
        Decimal::from_text("340282366920938463463374607431768211455", 0),
        Some(Decimal::new(u128::MAX, 0))
    );
    assert_eq!(Decimal::from_text("340282366920938463463374607431768211456", 0), None);
    assert_eq!(Decimal::from_text("4", 38), None);
    assert_eq!(Decimal::from_text("3", 38), Some(Decimal::new(3 * 10u128.pow(38), 38)));
}

#[test]
fn formatting_then_parsing_gives_the_value_back() {
    let units = [0u128, 1, 9, 10, 123, 1_000_000, 2_036_772, 7_269_277_500_000, u128::MAX];
    for scale in 0..=MAX_SCALE {
        for &u in units.iter() {
            let d = Decimal::new(u, scale);
            assert_eq!(Decimal::from_text(&d.to_text(), scale), Some(d));
        }
    }
}

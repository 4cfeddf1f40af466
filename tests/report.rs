use scaph2cc::cc_format::build_cc_result;
use scaph2cc::decimal::Decimal;
use scaph2cc::error::AggregationError;
use scaph2cc::measure::{Consumer, Host, Measure};
use scaph2cc::report::{build_carboncrush_result, build_process_report};
use scaph2cc::user::User;

#[test]
fn carboncrush_exporter_test_build_cc_result() {
    let carboncrush_result = build_carboncrush_result(
        Decimal::new(123, 0),
        "myapp1",
        "main",
        "d50e3b5ed5c27a848008abd5beb3d9e6c37c3f33",
        "http://whatever/job/123",
        Decimal::new(1230, 0),
    )
    .unwrap();
    assert_eq!(carboncrush_result.consumption, "123");
    assert_eq!(carboncrush_result.app_id, "myapp1");
    assert_eq!(carboncrush_result.duration, "1230");
    assert_eq!(carboncrush_result.branch, "main");
    assert_eq!(carboncrush_result.commit_sha, "d50e3b5ed5c27a848008abd5beb3d9e6c37c3f33");
    assert_eq!(carboncrush_result.energy, "151290");
    // 151290 microwatt-seconds are 0.000042025 Wh
    assert_eq!(carboncrush_result.energy_watthours, "0.000042025");
    assert_eq!(carboncrush_result.ci_pipeline_url, "http://whatever/job/123");
}

#[test]
fn report_of_123_microwatts_for_10_seconds() {
    let r = build_carboncrush_result(
        Decimal::new(123, 0),
        "myapp1",
        "main",
        "d50e3b5ed5c27a848008abd5beb3d9e6c37c3f33",
        "http://whatever/job/123",
        Decimal::new(10, 0),
    )
    .unwrap();
    assert_eq!(r.consumption, "123");
    assert_eq!(r.duration, "10");
    assert_eq!(r.energy, "1230");
    assert_eq!(r.energy_watthours, "0.000000341666666666");
    let approx: f64 = r.energy_watthours.parse().unwrap();
    assert!((approx - 3.416667e-7).abs() < 1e-12);
    assert_eq!(r.to_text(), "consumption: 123");
}

#[test]
fn report_fails_when_energy_does_not_fit() {
    let r = build_carboncrush_result(
        Decimal::new(u128::MAX, 6),
        "myapp1",
        "main",
        "abc",
        "http://whatever/job/123",
        Decimal::new(2, 6),
    );
    assert_eq!(r.err(), Some(AggregationError::InvalidMeasurement));
}

#[test]
fn cc_format_test_build_cc_result() {
    let carbon_crush_result = build_cc_result(
        Decimal::new(123, 0),
        "myapp1",
        "main",
        "d50e3b5ed5c27a848008abd5beb3d9e6c37c3f33",
        "http://whatever/job/123",
        Decimal::new(1230, 0),
        Decimal::new(10, 0),
    );
    assert_eq!(carbon_crush_result.consumption, "123");
    assert_eq!(carbon_crush_result.app_id, "myapp1");
    assert_eq!(carbon_crush_result.energy, "1230");
    assert_eq!(carbon_crush_result.duration, "10");
    assert_eq!(carbon_crush_result.branch, "main");
    assert_eq!(carbon_crush_result.commit_sha, "d50e3b5ed5c27a848008abd5beb3d9e6c37c3f33");
    assert_eq!(carbon_crush_result.ci_pipeline_url, "http://whatever/job/123");
}

#[test]
fn stress_ng_over_seven_snapshots() {
    let powers: [u64; 7] = [7_100_000, 7_250_001, 7_300_000, 7_199_999, 7_400_000, 7_350_000, 7_284_997];
    let mut measures = Vec::new();
    for (k, &p) in powers.iter().enumerate() {
        let ts = 1_646_408_480_000_000 + 500_000 * k as u64;
        let consumers = vec![
            Consumer { exe: "gnome-shell".to_string(), pid: 1200, consumption: 900_000, timestamp: ts },
            Consumer { exe: "/usr/bin/stress-ng".to_string(), pid: 4242, consumption: p, timestamp: ts },
        ];
        measures.push(Measure { host: Host { consumption: 20_000_000, timestamp: ts }, consumers });
    }
    // a snapshot without the process does not count
    measures.push(Measure {
        host: Host { consumption: 10_000_000, timestamp: 1_646_408_490_000_000 },
        consumers: vec![Consumer {
            exe: "gnome-shell".to_string(),
            pid: 1200,
            consumption: 800_000,
            timestamp: 1_646_408_490_000_000,
        }],
    });
    let r = build_process_report(&measures, "stress-ng", "myapp1", "main", "abc", "http://ci/1").unwrap();
    // mean: 50_884_997 / 7 = 7_269_285.285714...
    assert_eq!(r.consumption, "7269285.285714");
    assert_eq!(Decimal::from_text(&r.consumption, 6), Some(Decimal::new(7_269_285_285_714, 6)));
    // six half-second steps
    assert_eq!(r.duration, "3");
    assert_eq!(Decimal::from_text(&r.duration, 6), Some(Decimal::new(3_000_000, 6)));
    assert_eq!(r.energy, "21807855.857142");
    assert_eq!(r.app_id, "myapp1");
    assert_eq!(r.ci_pipeline_url, "http://ci/1");
}

#[test]
fn process_report_without_the_process_fails() {
    let measures = vec![Measure {
        host: Host { consumption: 1, timestamp: 1 },
        consumers: vec![Consumer { exe: "bash".to_string(), pid: 1, consumption: 1, timestamp: 1 }],
    }];
    let r = build_process_report(&measures, "stress-ng", "a", "b", "c", "d");
    assert_eq!(r.err(), Some(AggregationError::EmptyMatchSet));
}

#[test]
fn user_greeting() {
    let u = User::new(
        "jdoe".to_string(),
        "John".to_string(),
        "Doe".to_string(),
        "jdoe@example.com".to_string(),
    );
    assert_eq!(u.greeting(), "Hello jdoe aka John Doe jdoe@example.com");
}

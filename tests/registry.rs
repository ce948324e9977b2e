use diagonator_server::config::RequirementConfig;
use diagonator_server::constraints::TimeRange;
use diagonator_server::registry::{build_registry, lift_bound, lift_time};
use diagonator_server::time::{civil_reading, HourMinute, LocalDate, Timestamp};

fn template(name: &str) -> RequirementConfig {
    RequirementConfig { name: name.to_string(), due: HourMinute { hour: 9, minute: 0 } }
}

#[test]
fn registry_follows_template_order_with_consecutive_ids() {
    let templates = vec![template("a"), template("b"), template("c")];
    let dues = vec![Some(Timestamp(100)), None, Some(Timestamp(300))];
    let starts = vec![Some(None), Some(Some(Timestamp(5))), None];
    let ends = vec![Some(None), Some(Some(Timestamp(9))), Some(None)];
    let (reqs, ranges) = build_registry(&templates, &dues, &starts, &ends, 10).unwrap();
    assert_eq!(reqs.len(), 2);
    assert_eq!((reqs[0].id, reqs[0].name.as_str(), reqs[0].due, reqs[0].complete), (11, "a", Timestamp(100), false));
    assert_eq!((reqs[1].id, reqs[1].name.as_str(), reqs[1].due, reqs[1].complete), (12, "c", Timestamp(300), false));
    assert_eq!(
        ranges,
        vec![
            TimeRange { id: 13, start: None, end: None },
            TimeRange { id: 14, start: Some(Timestamp(5)), end: Some(Timestamp(9)) },
        ]
    );
}

#[test]
fn registry_refused_when_ids_run_out() {
    let templates = vec![template("a")];
    let dues = vec![Some(Timestamp(100))];
    assert!(build_registry(&templates, &dues, &vec![], &vec![], u64::MAX).is_none());
    let (reqs, _) = build_registry(&templates, &dues, &vec![], &vec![], u64::MAX - 1).unwrap();
    assert_eq!(reqs[0].id, u64::MAX);
}

#[test]
fn lifting_a_time_of_day() {
    let date = Timestamp(1_700_000_000).get_date().unwrap();
    let nine = HourMinute { hour: 9, minute: 0 };
    assert_eq!(lift_time(&date, &nine), Timestamp::from_date_hm(&date, &nine));
    assert_eq!(lift_time(&date, &HourMinute { hour: 24, minute: 0 }), None);
    assert_eq!(lift_bound(&date, &None), Some(None));
    assert_eq!(lift_bound(&date, &Some(nine)), Some(Timestamp::from_date_hm(&date, &nine)));
}

#[test]
fn civil_reading_matches_the_calendar() {
    let cases = [
        (1970, 1, 1, 0),
        (2000, 3, 1, 90),
        (2023, 11, 14, 1439),
        (1969, 12, 31, 720),
        (1600, 2, 29, 1),
        (-44, 3, 15, 600),
        (9999, 12, 31, 1439),
    ];
    for (y, m, d, minute) in cases {
        let expected = chrono::NaiveDate::from_ymd_opt(y, m, d)
            .unwrap()
            .and_hms_opt(minute / 60, minute % 60, 0)
            .unwrap()
            .and_utc()
            .timestamp();
        assert_eq!(civil_reading(&LocalDate { year: y, month: m, day: d }, minute), Timestamp(expected));
    }
}

#[test]
fn local_instant_is_within_a_day_of_its_reading() {
    let date = Timestamp(1_700_000_000).get_date().unwrap();
    let t = Timestamp::from_date_hm(&date, &HourMinute { hour: 9, minute: 30 }).unwrap();
    let reading = civil_reading(&date, 9 * 60 + 30);
    assert!((t.0 - reading.0).abs() < 86_400);
    assert_eq!(Timestamp::from_date_hm(&date, &HourMinute { hour: 9, minute: 60 }), None);
}

use diagonator_server::text::push_decimal;
use diagonator_server::time::{Duration, HourMinute, ParseHourMinuteError, Timestamp};

#[test]
fn minutes_are_sixty_seconds() {
    assert_eq!(Duration::from_minutes(25), Duration(1500));
    assert_eq!(Duration::from_minutes(-2), Duration(-120));
    assert_eq!(Timestamp(100).add(Duration::from_minutes(5)), Timestamp(400));
    assert_eq!(Timestamp::zero(), Timestamp(0));
}

#[test]
fn hour_minute_range() {
    assert_eq!(HourMinute::new(23, 59), Some(HourMinute { hour: 23, minute: 59 }));
    assert_eq!(HourMinute::new(24, 0), None);
    assert_eq!(HourMinute::new(0, 60), None);
}

#[test]
fn hour_minute_text_round_trip() {
    for (h, m) in [(0, 0), (9, 5), (12, 30), (23, 59)] {
        let hm = HourMinute::new(h, m).unwrap();
        let text = hm.to_hhmm();
        assert_eq!(text.len(), 5);
        assert_eq!(HourMinute::parse(&text), Ok(hm));
    }
    assert_eq!(HourMinute { hour: 9, minute: 5 }.to_hhmm(), "09:05");
}

#[test]
fn hour_minute_parse() {
    assert_eq!(HourMinute::parse("9:05"), Ok(HourMinute { hour: 9, minute: 5 }));
    assert_eq!(HourMinute::parse("09:00"), Ok(HourMinute { hour: 9, minute: 0 }));
    assert_eq!(HourMinute::parse("24:00"), Err(ParseHourMinuteError::OutOfRange));
    assert_eq!(HourMinute::parse("12:60"), Err(ParseHourMinuteError::OutOfRange));
    assert_eq!(HourMinute::parse("123:00"), Err(ParseHourMinuteError::Malformed));
    assert_eq!(HourMinute::parse("9:5"), Err(ParseHourMinuteError::Malformed));
    assert_eq!(HourMinute::parse("ab:cd"), Err(ParseHourMinuteError::Malformed));
    assert_eq!(HourMinute::parse(""), Err(ParseHourMinuteError::Malformed));
    assert_eq!(HourMinute::parse("09-00"), Err(ParseHourMinuteError::Malformed));
}

#[test]
fn decimal_digits() {
    let mut s = String::from("n=");
    push_decimal(&mut s, 0);
    assert_eq!(s, "n=0");
    let mut s = String::new();
    push_decimal(&mut s, 18446744073709551615);
    assert_eq!(s, "18446744073709551615");
}

#[test]
fn local_calendar_round_trip() {
    let t = Timestamp(1_700_000_000);
    let date = t.get_date().unwrap();
    assert!((1..=12).contains(&date.month));
    assert!((1..=31).contains(&date.day));
    let nine = Timestamp::from_date_hm(&date, &HourMinute { hour: 9, minute: 0 }).unwrap();
    assert_eq!(nine.get_date(), Some(date));
    let later = Timestamp::from_date_hm(&date, &HourMinute { hour: 9, minute: 1 }).unwrap();
    assert_eq!(later.0 - nine.0, 60);
    assert_eq!(Timestamp::from_date_hm_opt(&date, &None), Some(None));
    assert_eq!(
        Timestamp::from_date_hm_opt(&date, &Some(HourMinute { hour: 9, minute: 0 })),
        Some(Some(nine))
    );
}

use chrono::Datelike;
use chrono::TimeZone;
use crate::text::{digit_char, push_digit};
use vstd::prelude::*;
use vstd::string::*;

verus! {

/// A point in time, in whole seconds since the Unix epoch.
#[derive(Clone, Copy, Debug, PartialEq, Eq, Structural, Hash)]
pub struct Timestamp(pub i64);

/// A signed span of time in whole seconds.
#[derive(Clone, Copy, Debug, PartialEq, Eq, Structural)]
pub struct Duration(pub i64);

/// A calendar date in the host's local time zone.
#[derive(Clone, Copy, Debug, PartialEq, Eq, Structural)]
pub struct LocalDate {
    pub year: i32,
    pub month: u32,
    pub day: u32,
}

/// A wall-clock time of day with minute resolution.
#[derive(Clone, Copy, Debug, PartialEq, Eq, Structural)]
pub struct HourMinute {
    pub hour: u32,
    pub minute: u32,
}

/// Why a text is not a time of day.
#[derive(Clone, Copy, Debug, PartialEq, Eq, Structural)]
pub enum ParseHourMinuteError {
    /// The text is not of the form `H:MM` or `HH:MM`.
    Malformed,
    /// The hour is above 23 or the minute above 59.
    OutOfRange,
}

impl Timestamp {
    /// The start of the timeline.
    pub fn zero() -> (r: Timestamp)
        ensures
            r.0 == 0,
    {
        Timestamp(0)
    }
}

impl Duration {
    pub open spec fn minutes_spec(minutes: int) -> int {
        60 * minutes
    }

    pub fn from_minutes(minutes: i64) -> (r: Duration)
        requires
            i64::MIN <= Self::minutes_spec(minutes as int) <= i64::MAX,
        ensures
            r.0 == Self::minutes_spec(minutes as int),
    {
        Duration(minutes * 60)
    }
}

impl LocalDate {
    pub open spec fn wf(&self) -> bool {
        1 <= self.month <= 12 && 1 <= self.day <= 31
    }
}

/// The value of an ASCII digit, or `None` for any other character.
pub open spec fn digit_of(c: char) -> Option<u32> {
    if c == '0' { Some(0u32) }
    else if c == '1' { Some(1u32) }
    else if c == '2' { Some(2u32) }
    else if c == '3' { Some(3u32) }
    else if c == '4' { Some(4u32) }
    else if c == '5' { Some(5u32) }
    else if c == '6' { Some(6u32) }
    else if c == '7' { Some(7u32) }
    else if c == '8' { Some(8u32) }
    else if c == '9' { Some(9u32) }
    else { None }
}

/// The hour and minute fields of `H:MM` or `HH:MM`, before any range check.
pub open spec fn hhmm_fields(s: Seq<char>) -> Option<(u32, u32)> {
    if s.len() == 4 && digit_of(s[0]) is Some && s[1] == ':' && digit_of(s[2]) is Some
        && digit_of(s[3]) is Some {
        Some(
            (
                digit_of(s[0])->0,
                (10 * digit_of(s[2])->0 + digit_of(s[3])->0) as u32,
            ),
        )
    } else if s.len() == 5 && digit_of(s[0]) is Some && digit_of(s[1]) is Some && s[2] == ':'
        && digit_of(s[3]) is Some && digit_of(s[4]) is Some {
        Some(
            (
                (10 * digit_of(s[0])->0 + digit_of(s[1])->0) as u32,
                (10 * digit_of(s[3])->0 + digit_of(s[4])->0) as u32,
            ),
        )
    } else {
        None
    }
}

/// What a text reads as, as a time of day.
pub open spec fn parse_hhmm(s: Seq<char>) -> Result<HourMinute, ParseHourMinuteError> {
    match hhmm_fields(s) {
        None => Err(ParseHourMinuteError::Malformed),
        Some((h, m)) => if h <= 23 && m <= 59 {
            Ok(HourMinute { hour: h, minute: m })
        } else {
            Err(ParseHourMinuteError::OutOfRange)
        },
    }
}

/// The zero-padded `HH:MM` text of a time of day.
pub open spec fn hhmm_text(hour: u32, minute: u32) -> Seq<char> {
    seq![
        digit_char(hour as int / 10),
        digit_char(hour as int % 10),
        ':',
        digit_char(minute as int / 10),
        digit_char(minute as int % 10),
    ]
}

fn digit_value(c: char) -> (r: Option<u32>)
    ensures
        r == digit_of(c),
{
    match c {
        '0' => Some(0),
        '1' => Some(1),
        '2' => Some(2),
        '3' => Some(3),
        '4' => Some(4),
        '5' => Some(5),
        '6' => Some(6),
        '7' => Some(7),
        '8' => Some(8),
        '9' => Some(9),
        _ => None,
    }
}

impl HourMinute {
    pub open spec fn wf(&self) -> bool {
        self.hour <= 23 && self.minute <= 59
    }

    pub fn new(hour: u32, minute: u32) -> (r: Option<HourMinute>)
        ensures
            r == (if hour <= 23 && minute <= 59 {
                Some(HourMinute { hour, minute })
            } else {
                None
            }),
    {
        if hour <= 23 && minute <= 59 {
            Some(HourMinute { hour, minute })
        } else {
            None
        }
    }

    /// Reads `H:MM` or `HH:MM` with ASCII digits.
    pub fn parse(s: &str) -> (r: Result<HourMinute, ParseHourMinuteError>)
        ensures
            r == parse_hhmm(s@),
    {
        let n = s.unicode_len();
        let colon: usize;
        if n == 4 {
            colon = 1;
        } else if n == 5 {
            colon = 2;
        } else {
            return Err(ParseHourMinuteError::Malformed);
        }
        if s.get_char(colon) != ':' {
            return Err(ParseHourMinuteError::Malformed);
        }
        let mut hour: u32 = 0;
        let mut i: usize = 0;
        while i < colon
            invariant
                colon == 1 || colon == 2,
                n == s@.len(),
                colon + 3 == n,
                i <= colon,
                forall|k: int| 0 <= k < i ==> digit_of(#[trigger] s@[k]) is Some,
                i == 0 ==> hour == 0,
                i == 1 ==> hour == digit_of(s@[0])->0,
                i == 2 ==> hour == 10 * digit_of(s@[0])->0 + digit_of(s@[1])->0,
            decreases colon - i,
        {
            match digit_value(s.get_char(i)) {
                Some(d) => {
                    hour = hour * 10 + d;
                },
                None => {
                    return Err(ParseHourMinuteError::Malformed);
                },
            }
            i = i + 1;
        }
        let tens = digit_value(s.get_char(colon + 1));
        let ones = digit_value(s.get_char(colon + 2));
        match (tens, ones) {
            (Some(t), Some(o)) => {
                let minute = t * 10 + o;
                if hour <= 23 && minute <= 59 {
                    Ok(HourMinute { hour, minute })
                } else {
                    Err(ParseHourMinuteError::OutOfRange)
                }
            },
            _ => Err(ParseHourMinuteError::Malformed),
        }
    }

    /// The zero-padded `HH:MM` text.
    pub fn to_hhmm(&self) -> (r: String)
        requires
            self.wf(),
        ensures
            r@ == hhmm_text(self.hour, self.minute),
    {
        let mut s = String::new();
        push_digit(&mut s, self.hour / 10);
        push_digit(&mut s, self.hour % 10);
        let colon = ":";
        proof { reveal_strlit(":"); }
        s.append(colon);
        push_digit(&mut s, self.minute / 10);
        push_digit(&mut s, self.minute % 10);
        assert(s@ =~= hhmm_text(self.hour, self.minute));
        s
    }
}

/// The text of a valid time of day reads back as that time of day.
pub proof fn lemma_hhmm_round_trip(hm: HourMinute)
    requires
        hm.wf(),
    ensures
        parse_hhmm(hhmm_text(hm.hour, hm.minute)) == Ok::<HourMinute, ParseHourMinuteError>(hm),
{
    let s = hhmm_text(hm.hour, hm.minute);
    let h = hm.hour as int;
    let m = hm.minute as int;
    assert(0 <= h / 10 < 10 && 0 <= m / 10 < 10);
    assert(digit_of(digit_char(h / 10)) == Some((h / 10) as u32));
    assert(digit_of(digit_char(h % 10)) == Some((h % 10) as u32));
    assert(digit_of(digit_char(m / 10)) == Some((m / 10) as u32));
    assert(digit_of(digit_char(m % 10)) == Some((m % 10) as u32));
    assert(10 * (h / 10) + h % 10 == h);
    assert(10 * (m / 10) + m % 10 == m);
}

/// Relies on chrono's `Local::now`: the current time as whole seconds
/// since the epoch. Nothing is promised about its value.
#[verifier::external_body]
fn clock_now_secs() -> i64 {
    chrono::Local::now().timestamp()
}

/// Relies on chrono's `TimeZone::timestamp_opt` for `Local` with
/// `LocalResult::single`, then `NaiveDateTime::checked_add_offset` of the
/// instant's offset and `Datelike::{year, month, day}`: the local calendar
/// date of an instant, `None` where the instant or its local reading is out
/// of chrono's range. The date depends on the machine's time zone; chrono
/// documents a month in 1..=12 and a day in 1..=31.
#[verifier::external_body]
fn local_date_of_secs(secs: i64) -> (r: Option<(i32, u32, u32)>)
    ensures
        r matches Some((y, m, d)) ==> 1 <= m <= 12 && 1 <= d <= 31,
{
    match chrono::Local.timestamp_opt(secs, 0).single() {
        Some(dt) => match dt.naive_utc().checked_add_offset(*dt.offset()) {
            Some(local) => Some((local.year(), local.month(), local.day())),
            None => None,
        },
        None => None,
    }
}

/// The day number (days since 1970-01-01) of a date of the proleptic
/// Gregorian calendar. The years are shifted by a whole number of 400-year
/// cycles so that every division has a non-negative dividend.
pub open spec fn days_from_civil(year: int, month: int, day: int) -> int {
    let y = if month <= 2 { year - 1 } else { year };
    let mp = if month > 2 { month - 3 } else { month + 9 };
    let a = y + 2_400_000_000;
    365 * a + a / 4 - a / 100 + a / 400 + (153 * mp + 2) / 5 + day - 1 - 719468 - 876_582_000_000
}

/// The seconds since the epoch at which a clock on UTC reads `minute_of_day`
/// minutes into `date`: the plain reading of that date and time.
pub open spec fn civil_secs(date: LocalDate, minute_of_day: int) -> int {
    days_from_civil(date.year as int, date.month as int, date.day as int) * 86400 + minute_of_day * 60
}

/// `t` lies less than a day away from the plain reading of the minute
/// `minute_of_day` of `date`, as every local reading does: a time zone's
/// offset is less than a day.
pub open spec fn near_reading(date: LocalDate, minute_of_day: int, t: Timestamp) -> bool {
    civil_secs(date, minute_of_day) - 86400 < t.0 < civil_secs(date, minute_of_day) + 86400
}

/// The plain reading of the minute `minute_of_day` of `date`.
pub fn civil_reading(date: &LocalDate, minute_of_day: u32) -> (r: Timestamp)
    requires
        minute_of_day < 1440,
    ensures
        r.0 == civil_secs(*date, minute_of_day as int),
{
    let month = date.month as i64;
    let y: i64 = if month <= 2 { date.year as i64 - 1 } else { date.year as i64 };
    let mp: i64 = if month > 2 { month - 3 } else { month + 9 };
    let a: i64 = y + 2_400_000_000;
    assert(0 < a < 5_000_000_000);
    assert(0 <= mp < 5_000_000_000);
    assert(0 <= 365 * a < 2_000_000_000_000) by (nonlinear_arith)
        requires 0 < a < 5_000_000_000;
    assert(0 <= 153 * mp + 2 < 800_000_000_000) by (nonlinear_arith)
        requires 0 <= mp < 5_000_000_000;
    let days: i64 = 365 * a + a / 4 - a / 100 + a / 400 + (153 * mp + 2) / 5 + date.day as i64 - 1
        - 719468 - 876_582_000_000;
    assert(-1_000_000_000_000 < days < 3_000_000_000_000);
    assert(-100_000_000_000_000_000 < days * 86400 < 300_000_000_000_000_000) by (nonlinear_arith)
        requires -1_000_000_000_000 < days < 3_000_000_000_000;
    Timestamp(days * 86400 + minute_of_day as i64 * 60)
}

/// Relies on chrono's `TimeZone::with_ymd_and_hms` for `Local` with
/// `LocalResult::earliest` and `DateTime::timestamp`: the first instant
/// that reads as the given local date and time, `None` where no instant
/// does. chrono gives `None` for a date or time that does not exist
/// (`NaiveDate::from_ymd_opt`, `NaiveDate::and_hms_opt`), and an instant
/// is the local reading minus the zone's offset, which `FixedOffset` keeps
/// strictly within a day: so the instant lies within a day of the plain
/// reading. Which instant it is depends on the machine's time zone.
#[verifier::external_body]
fn local_secs_of(year: i32, month: u32, day: u32, hour: u32, minute: u32) -> (r: Option<i64>)
    ensures
        hour > 23 || minute > 59 || month < 1 || month > 12 || day < 1 || day > 31 ==> r is None,
        r matches Some(s) ==> near_reading(
            LocalDate { year, month, day },
            hour * 60 + minute,
            Timestamp(s),
        ),
{
    match chrono::Local.with_ymd_and_hms(year, month, day, hour, minute, 0).earliest() {
        Some(dt) => Some(dt.timestamp()),
        None => None,
    }
}

impl Timestamp {
    /// The current time of the host clock.
    pub fn now() -> Timestamp {
        Timestamp(clock_now_secs())
    }

    /// The instant at which the local clock reads `hm` on `date`; `None`
    /// where it never does (an invalid time, or a gap in local time).
    pub fn from_date_hm(date: &LocalDate, hm: &HourMinute) -> (r: Option<Timestamp>)
        ensures
            !hm.wf() ==> r is None,
            r matches Some(t) ==> near_reading(*date, hm.hour * 60 + hm.minute, t),
    {
        match local_secs_of(date.year, date.month, date.day, hm.hour, hm.minute) {
            Some(secs) => Some(Timestamp(secs)),
            None => None,
        }
    }

    /// As `from_date_hm` for a time of day that may be absent: an absent
    /// time gives `Some(None)`, a time that never occurs gives `None`.
    pub fn from_date_hm_opt(date: &LocalDate, hm: &Option<HourMinute>) -> (r: Option<
        Option<Timestamp>,
    >)
        ensures
            hm is None ==> r == Some(None::<Timestamp>),
            hm is Some ==> (r is None || r->0 is Some),
            hm matches Some(h) ==> (!h.wf() ==> r is None),
            hm matches Some(h) ==> (r matches Some(Some(t)) ==> near_reading(
                *date,
                h.hour * 60 + h.minute,
                t,
            )),
    {
        match hm {
            Some(hm) => match Self::from_date_hm(date, hm) {
                Some(t) => Some(Some(t)),
                None => None,
            },
            None => Some(None),
        }
    }

    /// The local calendar date of this instant; `None` outside the range
    /// of dates the calendar handles.
    pub fn get_date(self) -> (r: Option<LocalDate>)
        ensures
            r matches Some(d) ==> d.wf(),
    {
        match local_date_of_secs(self.0) {
            Some((year, month, day)) => Some(LocalDate { year, month, day }),
            None => None,
        }
    }

    pub open spec fn plus(self, d: Duration) -> Timestamp {
        Timestamp((self.0 + d.0) as i64)
    }

    pub open spec fn can_add(self, d: Duration) -> bool {
        i64::MIN <= self.0 + d.0 <= i64::MAX
    }

    pub fn add(self, d: Duration) -> (r: Timestamp)
        requires
            self.can_add(d),
        ensures
            r == self.plus(d),
            r.0 == self.0 + d.0,
    {
        Timestamp(self.0 + d.0)
    }
}

} // verus!

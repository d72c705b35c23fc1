use chrono::{DateTime, Datelike, Local, TimeZone, Timelike, Utc};
use usched::moment::{Duration, LocalDateTime, TimeOfDay, Timestamp};
use usched::time_input::{
    choose_form, parse_datetime, parse_duration, parse_hms, parse_in_relative, parse_time_range,
    parse_when, settle, TimeInputError, When,
};

fn local(t: Timestamp) -> DateTime<Local> {
    DateTime::from_timestamp(t.secs, t.nanos)
        .unwrap()
        .with_timezone(&Local)
}

fn seconds_from(now: DateTime<Local>, t: Timestamp) -> i64 {
    (local(t).with_timezone(&Utc) - now.with_timezone(&Utc)).num_seconds()
}

#[test]
fn datetime_in_hours() {
    let now = Local::now();
    let parsed = parse_datetime("in 2 hours").unwrap();
    let delta = seconds_from(now, parsed);
    assert!(delta >= 7195 && delta <= 7205);
}

#[test]
fn datetime_in_one_hour() {
    let now = Local::now();
    let parsed = parse_datetime("in 1 hour").unwrap();
    let delta = seconds_from(now, parsed);
    assert!(delta >= 3595 && delta <= 3605);
}

#[test]
fn datetime_in_minutes() {
    let now = Local::now();
    let parsed = parse_datetime("in 30 minutes").unwrap();
    let delta = seconds_from(now, parsed);
    assert!(delta >= 1795 && delta <= 1805);
}

#[test]
fn datetime_in_min_alias() {
    assert!(parse_datetime("in 5 min").is_ok());
}

#[test]
fn datetime_tomorrow() {
    let parsed = parse_datetime("tomorrow 14:00").unwrap();
    let local = local(parsed);
    let tomorrow = Local::now().date_naive() + chrono::Duration::days(1);
    assert_eq!(local.date_naive(), tomorrow);
    assert_eq!(local.format("%H:%M").to_string(), "14:00");
}

#[test]
fn datetime_absolute() {
    let parsed = parse_datetime("2099-06-15 09:30").unwrap();
    assert_eq!(
        local(parsed).format("%Y-%m-%d %H:%M").to_string(),
        "2099-06-15 09:30"
    );
}

#[test]
fn datetime_hhmm_today_or_tomorrow() {
    let parsed = parse_datetime("23:59").unwrap();
    let now = Local::now();
    let scheduled = local(parsed);
    assert!(scheduled > now);
    assert_eq!(scheduled.format("%H:%M").to_string(), "23:59");
}

#[test]
fn datetime_in_days() {
    let now = Local::now();
    let parsed = parse_datetime("in 3 days").unwrap();
    let delta = seconds_from(now, parsed);
    let expected = 3 * 24 * 3600;
    assert!(
        delta >= expected - 5 && delta <= expected + 5,
        "delta was {}",
        delta
    );
}

#[test]
fn datetime_in_one_day_singular() {
    assert!(parse_datetime("in 1 day").is_ok());
}

#[test]
fn datetime_today() {
    let parsed = parse_datetime("today 23:59").unwrap();
    let local = local(parsed);
    assert_eq!(local.date_naive(), Local::now().date_naive());
    assert_eq!(local.format("%H:%M").to_string(), "23:59");
}

#[test]
fn datetime_today_with_seconds() {
    let parsed = parse_datetime("today 23:59:30").unwrap();
    assert_eq!(local(parsed).format("%H:%M:%S").to_string(), "23:59:30");
}

#[test]
fn datetime_tomorrow_with_seconds() {
    let parsed = parse_datetime("tomorrow 14:00:30").unwrap();
    assert_eq!(local(parsed).format("%H:%M:%S").to_string(), "14:00:30");
}

#[test]
fn datetime_absolute_with_seconds() {
    let parsed = parse_datetime("2099-06-15 09:30:45").unwrap();
    assert_eq!(
        local(parsed).format("%Y-%m-%d %H:%M:%S").to_string(),
        "2099-06-15 09:30:45"
    );
}

#[test]
fn datetime_hhmmss_bare() {
    let parsed = parse_datetime("23:59:30").unwrap();
    assert_eq!(local(parsed).format("%H:%M:%S").to_string(), "23:59:30");
}

#[test]
fn datetime_invalid() {
    assert!(parse_datetime("garbage").is_err());
    assert!(parse_datetime("").is_err());
    assert!(parse_datetime("in two hours").is_err());
    assert!(parse_datetime("tomorrow notatime").is_err());
    assert!(parse_datetime("today notatime").is_err());
    assert!(parse_datetime("in 5 fortnights").is_err());
}

#[test]
fn datetime_error_lists_supported_forms() {
    let err = parse_datetime("nonsense").unwrap_err().message();
    assert!(err.contains("YYYY-MM-DD"), "err was: {}", err);
    assert!(err.contains("tomorrow"), "err was: {}", err);
    assert!(err.contains("in N"), "err was: {}", err);
}

#[test]
fn duration_basic() {
    assert_eq!(parse_duration("2h").unwrap(), Duration::hours(2).unwrap());
    assert_eq!(
        parse_duration("30m").unwrap(),
        Duration::minutes(30).unwrap()
    );
    assert_eq!(
        parse_duration("1h30m").unwrap(),
        Duration::minutes(90).unwrap()
    );
    assert_eq!(
        parse_duration("90").unwrap(),
        Duration::minutes(90).unwrap()
    );
}

#[test]
fn duration_uppercase() {
    assert_eq!(parse_duration("2H").unwrap(), Duration::hours(2).unwrap());
    assert_eq!(
        parse_duration("1H30M").unwrap(),
        Duration::minutes(90).unwrap()
    );
}

#[test]
fn duration_whitespace() {
    assert_eq!(
        parse_duration("  2h  ").unwrap(),
        Duration::hours(2).unwrap()
    );
}

#[test]
fn duration_zero_errors() {
    assert!(parse_duration("0").is_err());
    assert!(parse_duration("0h").is_err());
    assert!(parse_duration("0h0m").is_err());
}

#[test]
fn duration_invalid() {
    assert!(parse_duration("").is_err());
    assert!(parse_duration("abc").is_err());
    assert!(parse_duration("h").is_err());
}

fn t(h: u32, m: u32) -> TimeOfDay {
    TimeOfDay::from_hms(h, m, 0).unwrap()
}

#[test]
fn time_range_ok() {
    let r = parse_time_range("09:00-17:00").unwrap();
    assert_eq!(r.start, t(9, 0));
    assert_eq!(r.end, t(17, 0));
}

#[test]
fn time_range_invalid() {
    assert!(parse_time_range("9-17").is_err());
    assert!(parse_time_range("09:00").is_err());
    assert!(parse_time_range("25:00-26:00").is_err());
    assert!(parse_time_range("").is_err());
}

#[test]
fn time_range_faults_are_told_apart() {
    let e = parse_time_range("09:00").unwrap_err();
    assert!(matches!(e, TimeInputError::RangeFormat));
    assert_eq!(
        e.message(),
        "Invalid time range format, expected 'HH:MM-HH:MM'"
    );
    let e = parse_time_range("25:00-26:00").unwrap_err();
    assert!(matches!(e, TimeInputError::RangeTime(_)));
    let said = |text: &str| {
        chrono::NaiveTime::parse_from_str(text, "%H:%M")
            .unwrap_err()
            .to_string()
    };
    assert_eq!(e.message(), said("25:00"));
    assert_eq!(
        parse_time_range("09:00-x").unwrap_err().message(),
        said("x")
    );
}

#[test]
fn duration_faults_are_told_apart() {
    let e = parse_duration(" 0H ").unwrap_err();
    assert_eq!(e.message(), "Invalid duration: 0h");
    let e = parse_duration("h").unwrap_err();
    assert!(matches!(e, TimeInputError::BadNumber(_)));
    assert_eq!(e.message(), "".parse::<i64>().unwrap_err().to_string());
    assert!(matches!(
        parse_duration("9223372036854775807h").unwrap_err(),
        TimeInputError::OutOfRange
    ));
    assert!(matches!(
        parse_duration("9223372036854775808m").unwrap_err(),
        TimeInputError::BadNumber(_)
    ));
}

#[test]
fn duration_sums_its_parts_and_passes_over_the_rest() {
    assert_eq!(
        parse_duration("1h 20m 5").unwrap(),
        Duration::minutes(85).unwrap()
    );
    assert_eq!(
        parse_duration("1x2m").unwrap(),
        Duration::minutes(12).unwrap()
    );
}

#[test]
fn longest_duration() {
    assert_eq!(
        parse_duration("153722867280912m").unwrap().secs,
        9_223_372_036_854_720
    );
    assert!(matches!(
        parse_duration("153722867280913m").unwrap_err(),
        TimeInputError::OutOfRange
    ));
    assert!(chrono::TimeDelta::try_minutes(153722867280912).is_some());
    assert!(chrono::TimeDelta::try_minutes(153722867280913).is_none());
}

#[test]
fn datetime_faults_are_told_apart() {
    let e = parse_datetime("in two hours").unwrap_err();
    assert!(matches!(e, TimeInputError::BadNumber(_)));
    assert_eq!(e.message(), "two".parse::<i64>().unwrap_err().to_string());
    assert!(matches!(
        parse_datetime("in 9223372036854775807 days").unwrap_err(),
        TimeInputError::OutOfRange
    ));
    let e = parse_datetime("today notatime").unwrap_err();
    assert_eq!(
        e.message(),
        "Invalid time \"notatime\", expected HH:MM or HH:MM:SS"
    );
    let e = parse_datetime("In 5 \"Fortnights").unwrap_err();
    assert!(
        e.message()
            .starts_with("Could not parse datetime: \"in 5 \\\"fortnights\". Supported forms: "),
        "err was: {}",
        e.message()
    );
    assert_eq!(
        TimeInputError::NoLocalTime.message(),
        "Invalid local datetime"
    );
}

#[test]
fn when_reads_every_form() {
    assert_eq!(
        parse_when("in 2 hours").unwrap(),
        When::After(Duration { secs: 7200 })
    );
    assert_eq!(
        parse_when("in -1 minute").unwrap(),
        When::After(Duration { secs: -60 })
    );
    assert_eq!(parse_when("today 23:59").unwrap(), When::Today(t(23, 59)));
    assert_eq!(
        parse_when("tomorrow 14:00").unwrap(),
        When::Tomorrow(t(14, 0))
    );
    assert_eq!(parse_when("08:05").unwrap(), When::Next(t(8, 5)));
    let day = LocalDateTime {
        day: 738_905,
        time: t(15, 0),
    };
    assert_eq!(parse_when("2024-01-20 15:00").unwrap(), When::At(day));
    assert_eq!(parse_when("2024-01-20 15:00:00").unwrap(), When::At(day));
}

#[test]
fn days_are_counted_from_year_one() {
    let d = chrono::NaiveDate::from_ymd_opt(2024, 1, 20).unwrap();
    assert_eq!(d.num_days_from_ce(), 738_905);
    let d = chrono::NaiveDate::from_ymd_opt(1970, 1, 1).unwrap();
    assert_eq!(d.num_days_from_ce(), usched::moment::EPOCH_DAY);
    assert_eq!(
        chrono::NaiveDate::MIN.num_days_from_ce(),
        usched::moment::MIN_DAY
    );
    assert_eq!(
        chrono::NaiveDate::MAX.num_days_from_ce(),
        usched::moment::MAX_DAY
    );
}

#[test]
fn instants_have_the_bounds_of_dates() {
    assert_eq!(
        DateTime::<Utc>::MIN_UTC.timestamp(),
        usched::moment::MIN_SECS
    );
    assert_eq!(
        DateTime::<Utc>::MAX_UTC.timestamp(),
        usched::moment::MAX_SECS
    );
    assert_eq!(
        chrono::TimeDelta::MAX.num_seconds(),
        usched::moment::MAX_SPAN_SECS
    );
}

#[test]
fn hms_reads_both_forms_and_leap_seconds() {
    assert_eq!(parse_hms("07:08"), Some(t(7, 8)));
    assert_eq!(parse_hms("07:08:09"), TimeOfDay::from_hms(7, 8, 9));
    assert_eq!(parse_hms("7:8"), Some(t(7, 8)));
    assert_eq!(parse_hms("24:00"), None);
    assert_eq!(parse_hms("07:60"), None);
    let leap = parse_hms("23:59:60").unwrap();
    assert_eq!(leap.secs, 86_399);
    assert_eq!(leap.frac, 1_000_000_000);
    let read = chrono::NaiveTime::parse_from_str("23:59:60", "%H:%M:%S").unwrap();
    assert_eq!(read.num_seconds_from_midnight(), leap.secs);
    assert_eq!(read.nanosecond(), leap.frac);
}

#[test]
fn relative_spans_need_a_known_unit() {
    assert!(parse_in_relative("5 fortnights").is_none());
    assert!(parse_in_relative("5days").is_none());
    assert!(matches!(
        parse_in_relative(" 3 days "),
        Some(Ok(When::After(Duration { secs: 259_200 })))
    ));
    assert!(matches!(
        parse_in_relative("x min"),
        Some(Err(TimeInputError::BadNumber(_)))
    ));
}

#[test]
fn forms_are_tried_in_order() {
    let day = LocalDateTime {
        day: 738_905,
        time: t(15, 0),
    };
    let other = LocalDateTime {
        day: 738_906,
        time: t(16, 0),
    };
    assert_eq!(
        choose_form("x", Some(t(1, 0)), Some(day), Some(other)).unwrap(),
        When::At(day)
    );
    assert_eq!(
        choose_form("x", Some(t(1, 0)), None, Some(other)).unwrap(),
        When::At(other)
    );
    assert_eq!(
        choose_form("x", Some(t(1, 0)), None, None).unwrap(),
        When::Next(t(1, 0))
    );
    assert!(matches!(
        choose_form("x", None, None, None),
        Err(TimeInputError::Unsupported(_))
    ));
    assert_eq!(
        choose_form("today x", Some(t(1, 0)), Some(day), None).unwrap(),
        When::Today(t(1, 0))
    );
}

#[test]
fn bare_time_is_today_while_still_to_come() {
    let at = |secs: i64| Timestamp { secs, nanos: 0 };
    let next = When::Next(t(12, 0));
    let now = at(1_000_000);
    assert_eq!(
        settle(next, now, Some(at(1_000_001)), Some(at(1_086_401))).unwrap(),
        at(1_000_001)
    );
    assert_eq!(
        settle(next, now, Some(at(1_000_000)), Some(at(1_086_400))).unwrap(),
        at(1_086_400)
    );
    assert!(matches!(
        settle(next, now, Some(at(999_999)), None),
        Err(TimeInputError::NoLocalTime)
    ));
    assert!(matches!(
        settle(When::Today(t(12, 0)), now, None, None),
        Err(TimeInputError::NoLocalTime)
    ));
}

#[test]
fn spans_are_counted_from_now() {
    let now = Timestamp {
        secs: 1_000,
        nanos: 5,
    };
    let w = When::After(Duration { secs: 60 });
    assert_eq!(
        settle(w, now, None, None).unwrap(),
        Timestamp {
            secs: 1_060,
            nanos: 5
        }
    );
    let far = When::After(Duration {
        secs: usched::moment::MAX_SPAN_SECS,
    });
    assert!(matches!(
        settle(far, now, None, None),
        Err(TimeInputError::OutOfRange)
    ));
}

#[test]
fn absolute_times_are_local() {
    let parsed = parse_datetime("2030-03-04 05:06").unwrap();
    let expected = Local.with_ymd_and_hms(2030, 3, 4, 5, 6, 0).single().unwrap();
    assert_eq!(parsed.secs, expected.timestamp());
    assert_eq!(parsed.nanos, 0);
}

use usched::cron_convert::{
    convert_day, convert_dow, convert_field, convert_hour, convert_minute, convert_month,
    cron_to_oncalendar, has_zero_step, CronError,
};

#[test]
fn test_simple_daily() {
    assert_eq!(cron_to_oncalendar("0 9 * * *").unwrap(), "*-*-* 09:00");
}

#[test]
fn test_every_30_min() {
    assert_eq!(
        cron_to_oncalendar("*/30 * * * *").unwrap(),
        "*-*-* *:00,30"
    );
}

#[test]
fn test_weekdays() {
    assert_eq!(
        cron_to_oncalendar("0 9 * * 1-5").unwrap(),
        "Mon..Fri *-*-* 09:00"
    );
}

#[test]
fn test_hour_range() {
    assert_eq!(
        cron_to_oncalendar("0,30 8-22 * * *").unwrap(),
        "*-*-* 08..22:00,30"
    );
}

#[test]
fn every_two_hours_and_two_times_a_day() {
    assert_eq!(
        cron_to_oncalendar("0 */2 * * *").unwrap(),
        "*-*-* 00,02,04,06,08,10,12,14,16,18,20,22:00"
    );
    assert_eq!(
        cron_to_oncalendar("0 9,18 * * *").unwrap(),
        "*-*-* 09,18:00"
    );
}

#[test]
fn days_and_months_are_padded() {
    assert_eq!(
        cron_to_oncalendar("5 4 1 12 *").unwrap(),
        "*-12-01 04:05"
    );
    assert_eq!(convert_day("*"), "*");
    assert_eq!(convert_month("*"), "*");
    assert_eq!(convert_day("7"), "07");
}

#[test]
fn steps_of_days_and_months_count_from_one() {
    assert_eq!(
        cron_to_oncalendar("0 0 */10 * *").unwrap(),
        "*-*-01,11,21,31 00:00"
    );
    assert_eq!(convert_day("*/16"), "01,17");
    assert_eq!(convert_day("*/40"), "01");
    assert_eq!(convert_month("*/6"), "01,07");
    assert_eq!(convert_month("*/11"), "01,12");
    assert_eq!(convert_hour("*/12"), "00,12");
    assert_eq!(convert_minute("*/20"), "00,20,40");
}

#[test]
fn fields_keep_what_they_do_not_understand() {
    assert_eq!(convert_minute("x"), "x");
    assert_eq!(convert_hour("*/x"), "*/x");
    assert_eq!(convert_minute("1-2-3"), "1-2-3");
    assert_eq!(convert_minute("+5"), "05");
}

#[test]
fn lists_keep_their_numbers_and_ranges() {
    assert_eq!(convert_field("9-11,15", 24, 2), "09..11,15");
    assert_eq!(
        cron_to_oncalendar("0,30 9-11,15 1-7,21 1,6-8 *").unwrap(),
        "*-01,06..08-01..07,21 09..11,15:00,30"
    );
    assert_eq!(convert_day("5,*/15"), "05,01,16,31");
    assert_eq!(convert_hour("*,5"), "00..23,05");
    assert_eq!(convert_day("*,5"), "01..31,05");
}

#[test]
fn ranges_keep_their_steps() {
    assert_eq!(convert_minute("0-30/10"), "00..30/10");
    assert_eq!(convert_hour("8-18/2,22"), "08..18/2,22");
    assert_eq!(convert_minute("0-30/0"), "0-30/0");
    assert_eq!(convert_minute("5/10"), "5/10");
}

#[test]
fn lists_drop_what_is_no_entry() {
    assert_eq!(convert_minute("1,x,3"), "01,03");
    assert_eq!(convert_minute("1,*/0,3"), "01,03");
    assert_eq!(convert_minute(","), "");
}

#[test]
fn field_width_is_a_minimum() {
    assert_eq!(convert_field("5", 60, 4), "0005");
    assert_eq!(convert_field("12345", 60, 2), "12345");
    assert_eq!(convert_field("7", 60, 0), "7");
}

#[test]
fn days_of_the_week_have_names() {
    assert_eq!(convert_dow("*").unwrap(), "");
    assert_eq!(convert_dow("0").unwrap(), "Sun");
    assert_eq!(convert_dow("6").unwrap(), "Sat");
    assert_eq!(convert_dow("7").unwrap(), "7");
    assert_eq!(convert_dow("1,3,9").unwrap(), "Mon,Wed,*");
    assert_eq!(convert_dow("1-3,5").unwrap(), "Mon..Wed,Fri");
    assert_eq!(convert_dow("5-9").unwrap(), "5-9");
    assert_eq!(convert_dow("Mon").unwrap(), "Mon");
}

#[test]
fn named_days_in_ranges_and_lists_are_refused() {
    let refused = |part: &str| {
        let said = part.parse::<usize>().unwrap_err().to_string();
        Err(CronError::DayOfWeek(said))
    };
    assert_eq!(convert_dow("Mon-Fri"), refused("Mon"));
    assert_eq!(convert_dow("1-"), refused(""));
    assert_eq!(convert_dow("1,x"), refused("x"));
    assert_eq!(convert_dow("1,5-9"), refused("5-9"));
    assert_eq!(convert_dow("1,,x"), refused(""));
    assert_eq!(convert_dow("1-9/2"), refused("9/2"));
}

#[test]
fn steps_of_days_of_the_week_count_from_sunday() {
    assert_eq!(convert_dow("*/2").unwrap(), "Sun,Tue,Thu,Sat");
    assert_eq!(convert_dow("*/7").unwrap(), "Sun");
    assert_eq!(convert_dow("1-5/2").unwrap(), "Mon,Wed,Fri");
    assert_eq!(convert_dow("*/3,5").unwrap(), "Sun,Wed,Sat,Fri");
    assert_eq!(convert_dow("*/0").unwrap(), "*/0");
    assert_eq!(
        cron_to_oncalendar("0 9 * * */3").unwrap(),
        "Sun,Wed,Sat *-*-* 09:00"
    );
}

#[test]
fn other_counts_of_fields_are_refused() {
    let e = cron_to_oncalendar("not a cron").unwrap_err();
    assert_eq!(e, CronError::FieldCount(3));
    assert_eq!(
        e.message(),
        "Invalid cron expression: expected 5 fields, got 3"
    );
    assert_eq!(
        cron_to_oncalendar("").unwrap_err(),
        CronError::FieldCount(0)
    );
    assert_eq!(
        cron_to_oncalendar("0 9 * * x-y").unwrap_err().message(),
        "x".parse::<usize>().unwrap_err().to_string()
    );
}

#[test]
fn white_space_between_fields_does_not_matter() {
    assert_eq!(
        cron_to_oncalendar("  0\t9  *\n* * ").unwrap(),
        "*-*-* 09:00"
    );
}

#[test]
fn zero_steps_are_found() {
    assert!(has_zero_step("*/0 * * * *"));
    assert!(has_zero_step("* * * */00 *"));
    assert!(!has_zero_step("*/5 * * * *"));
    assert!(!has_zero_step("*/0 * * *"));
    assert!(!has_zero_step("*/0 * * * a-b"));
    assert!(!has_zero_step("* * * * */0"));
}

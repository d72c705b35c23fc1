//! Instants, times of day and spans of time, and what the `chrono` crate is asked about
//! them: the clock, the local time zone, and dates written as text.
use crate::number::{digit_value, padded, two_digits};
use crate::text::is_digit;
use chrono::{Datelike, TimeZone, Timelike};
use vstd::prelude::*;

verus! {

/// Seconds in a day.
pub const DAY_SECS: i64 = 86_400;

/// The day number of 1 January 1970, counted from 1 January of year 1 as day 1.
pub const EPOCH_DAY: i32 = 719_163;

/// The first day that a date can name: 1 January of the year -262143.
pub const MIN_DAY: i32 = -95_746_129;

/// The last day that a date can name: 31 December of the year 262142.
pub const MAX_DAY: i32 = 95_745_399;

/// The first second of `MIN_DAY`, counted from the epoch.
pub const MIN_SECS: i64 = -8_334_601_228_800;

/// The last second of `MAX_DAY`, counted from the epoch.
pub const MAX_SECS: i64 = 8_210_266_876_799;

/// The longest span, in seconds, that a `Duration` holds.
pub const MAX_SPAN_SECS: i64 = 9_223_372_036_854_775;

/// A time of day: whole seconds since midnight, and nanoseconds. A fraction of a second
/// or more belongs to a leap second.
#[derive(Clone, Copy, Debug, PartialEq, Eq, Structural)]
pub struct TimeOfDay {
    pub secs: u32,
    pub frac: u32,
}

impl View for TimeOfDay {
    type V = (int, int);

    open spec fn view(&self) -> (int, int) {
        (self.secs as int, self.frac as int)
    }
}

impl TimeOfDay {
    pub open spec fn wf(self) -> bool {
        self.secs < 86_400 && self.frac < 2_000_000_000
    }

    pub open spec fn spec_le(self, other: TimeOfDay) -> bool {
        self.secs < other.secs || (self.secs == other.secs && self.frac <= other.frac)
    }

    /// The time with its seconds and fraction dropped.
    pub open spec fn spec_to_minute(self) -> TimeOfDay {
        TimeOfDay { secs: (self.secs as int / 60 * 60) as u32, frac: 0 }
    }

    /// The time `h:m:s`, where there is one.
    pub fn from_hms(h: u32, m: u32, s: u32) -> (r: Option<TimeOfDay>)
        ensures
            r is Some <==> h < 24 && m < 60 && s < 60,
            r matches Some(t) ==> t.wf() && t@ == (h * 3600 + m * 60 + s, 0int),
    {
        if h < 24 && m < 60 && s < 60 {
            Some(TimeOfDay { secs: h * 3600 + m * 60 + s, frac: 0 })
        } else {
            None
        }
    }

    /// Whether this time is no later than `other`.
    pub fn le(&self, other: &TimeOfDay) -> (r: bool)
        ensures
            r == self.spec_le(*other),
    {
        self.secs < other.secs || (self.secs == other.secs && self.frac <= other.frac)
    }

    /// The time with its seconds and fraction dropped.
    pub fn to_minute(&self) -> (r: TimeOfDay)
        ensures
            r == self.spec_to_minute(),
            self.wf() ==> r.wf(),
    {
        TimeOfDay { secs: self.secs / 60 * 60, frac: 0 }
    }
}

/// A day and a time on it, in some time zone that is known from elsewhere.
#[derive(Clone, Copy, Debug, PartialEq, Eq, Structural)]
pub struct LocalDateTime {
    /// Counted from 1 January of year 1 as day 1.
    pub day: i32,
    pub time: TimeOfDay,
}

impl View for LocalDateTime {
    type V = (int, int, int);

    open spec fn view(&self) -> (int, int, int) {
        (self.day as int, self.time.secs as int, self.time.frac as int)
    }
}

impl LocalDateTime {
    pub open spec fn wf(self) -> bool {
        MIN_DAY <= self.day <= MAX_DAY && self.time.wf()
    }

    /// Seconds since the epoch, were the time zone UTC.
    pub open spec fn civil_secs(self) -> int {
        (self.day - EPOCH_DAY) * 86_400 + self.time.secs
    }

    /// Whether clocks may show this at an instant: those of any time zone are less than a
    /// day off UTC, by whole seconds.
    pub open spec fn may_show(self, t: Timestamp) -> bool {
        self.wf() && t.wf() && -DAY_SECS < self.civil_secs() - t.secs < DAY_SECS && self.time.frac
            == t.nanos
    }
}

/// An instant: whole seconds since the epoch, and nanoseconds. A fraction of a second or
/// more belongs to a leap second.
#[derive(Clone, Copy, Debug, PartialEq, Eq, Structural)]
pub struct Timestamp {
    pub secs: i64,
    pub nanos: u32,
}

impl Timestamp {
    pub open spec fn wf(self) -> bool {
        MIN_SECS <= self.secs <= MAX_SECS && self.nanos < 2_000_000_000
    }

    /// Whether local time is within the dates that can be named, whatever the zone.
    pub open spec fn zone_safe(self) -> bool {
        MIN_SECS + DAY_SECS <= self.secs <= MAX_SECS - DAY_SECS && self.nanos < 2_000_000_000
    }

    pub open spec fn spec_le(self, other: Timestamp) -> bool {
        self.secs < other.secs || (self.secs == other.secs && self.nanos <= other.nanos)
    }

    pub open spec fn spec_lt(self, other: Timestamp) -> bool {
        !other.spec_le(self)
    }

    /// Whether this instant is no later than `other`.
    pub fn le(&self, other: &Timestamp) -> (r: bool)
        ensures
            r == self.spec_le(*other),
    {
        self.secs < other.secs || (self.secs == other.secs && self.nanos <= other.nanos)
    }

    /// Whether this instant is earlier than `other`.
    pub fn lt(&self, other: &Timestamp) -> (r: bool)
        ensures
            r == self.spec_lt(*other),
    {
        !other.le(self)
    }
}

/// A span of whole seconds.
#[derive(Clone, Copy, Debug, PartialEq, Eq, Structural)]
pub struct Duration {
    pub secs: i64,
}

impl Duration {
    pub open spec fn wf(self) -> bool {
        -MAX_SPAN_SECS <= self.secs <= MAX_SPAN_SECS
    }

    /// A span of `n` units of `unit` seconds, where it can be held.
    fn units(n: i64, unit: i64) -> (r: Option<Duration>)
        requires
            0 < unit <= 86_400,
        ensures
            r is Some <==> -MAX_SPAN_SECS <= n * unit <= MAX_SPAN_SECS,
            r matches Some(d) ==> d.wf() && d.secs == n * unit,
    {
        let p: i128 = {
            assert(-0x8000_0000_0000_0000 * 86_400 <= n * unit <= 0x7fff_ffff_ffff_ffff * 86_400)
                by (nonlinear_arith)
                requires
                    -0x8000_0000_0000_0000 <= n <= 0x7fff_ffff_ffff_ffff,
                    0 < unit <= 86_400,
            ;
            n as i128 * unit as i128
        };
        if -(MAX_SPAN_SECS as i128) <= p && p <= MAX_SPAN_SECS as i128 {
            Some(Duration { secs: p as i64 })
        } else {
            None
        }
    }

    /// A span of `n` minutes, where it can be held.
    pub fn minutes(n: i64) -> (r: Option<Duration>)
        ensures
            r is Some <==> -MAX_SPAN_SECS <= n * 60 <= MAX_SPAN_SECS,
            r matches Some(d) ==> d.wf() && d.secs == n * 60,
    {
        Duration::units(n, 60)
    }

    /// A span of `n` hours, where it can be held.
    pub fn hours(n: i64) -> (r: Option<Duration>)
        ensures
            r is Some <==> -MAX_SPAN_SECS <= n * 3600 <= MAX_SPAN_SECS,
            r matches Some(d) ==> d.wf() && d.secs == n * 3600,
    {
        Duration::units(n, 3600)
    }

    /// A span of `n` days, where it can be held.
    pub fn days(n: i64) -> (r: Option<Duration>)
        ensures
            r is Some <==> -MAX_SPAN_SECS <= n * 86_400 <= MAX_SPAN_SECS,
            r matches Some(d) ==> d.wf() && d.secs == n * 86_400,
    {
        Duration::units(n, 86_400)
    }
}

/// `chrono::Utc::now`: the instant that the system clock shows. It is never before the
/// epoch and never within a leap second; which instant it is, is left open. The call
/// panics on a machine whose clock is set before the epoch or past `MAX_SECS`.
#[verifier::external_body]
pub fn utc_now() -> (r: Timestamp)
    ensures
        r.wf(),
        r.secs >= 0,
        r.nanos < 1_000_000_000,
{
    let t = chrono::Utc::now();
    Timestamp { secs: t.timestamp(), nanos: t.timestamp_subsec_nanos() }
}

/// `t` is what a look at the system clock gave.
pub open spec fn is_now(t: Timestamp) -> bool {
    call_ensures(utc_now, (), t)
}

/// `DateTime::with_timezone` with `Local`, and `DateTime::naive_local`: what the clocks of
/// the machine's time zone show at an instant. They are less than a day off UTC, by whole
/// seconds; by how much is left open, for it depends on the zone. The call panics where the
/// machine's time zone data cannot be used.
#[verifier::external_body]
pub fn local_clock(t: Timestamp) -> (r: LocalDateTime)
    requires
        t.zone_safe(),
    ensures
        r.may_show(t),
{
    let utc = chrono::DateTime::from_timestamp(t.secs, 0).unwrap().naive_utc();
    let utc = utc.with_nanosecond(t.nanos).unwrap().and_utc();
    let n = utc.with_timezone(&chrono::Local).naive_local();
    let time = TimeOfDay { secs: n.time().num_seconds_from_midnight(), frac: n.time().nanosecond() };
    LocalDateTime { day: n.date().num_days_from_ce(), time }
}

/// `d` is what the local clocks were found to show at an instant.
pub open spec fn is_shown_at(d: LocalDateTime, t: Timestamp) -> bool {
    call_ensures(local_clock, (t,), d)
}

/// `Local.from_local_datetime(..).single()`: the one instant at which the clocks of the
/// machine's time zone show `d`, where there is exactly one. It is less than a day off the
/// instant that shows `d` in UTC, by whole seconds; by how much, and whether there is one,
/// is left open, for it depends on the zone. The call panics where the machine's time zone
/// data cannot be used.
#[verifier::external_body]
pub fn local_instant(d: LocalDateTime) -> (r: Option<Timestamp>)
    requires
        d.wf(),
    ensures
        r matches Some(t) ==> d.may_show(t),
{
    let date = chrono::NaiveDate::from_num_days_from_ce_opt(d.day).unwrap();
    let time = chrono::NaiveTime::from_num_seconds_from_midnight_opt(d.time.secs, 0).unwrap();
    let naive = date.and_time(time.with_nanosecond(d.time.frac).unwrap());
    let found = chrono::Local.from_local_datetime(&naive).single();
    found.map(|t| Timestamp { secs: t.timestamp(), nanos: t.timestamp_subsec_nanos() })
}

/// `r` is what the local time zone answered when it was asked at which instant clocks show
/// `d`.
pub open spec fn is_answer(r: Option<Timestamp>, d: LocalDateTime) -> bool {
    call_ensures(local_instant, (d,), r)
}

/// `DateTime::checked_add_signed`: the instant that lies a span after `t`, where there is one.
#[verifier::external_body]
pub(crate) fn instant_after(t: Timestamp, d: Duration) -> (r: Option<Timestamp>)
    requires
        t.wf(),
        t.nanos < 1_000_000_000,
        d.wf(),
    ensures
        r is Some <==> MIN_SECS <= t.secs + d.secs <= MAX_SECS,
        r matches Some(u) ==> u.secs == t.secs + d.secs && u.nanos == t.nanos,
{
    let utc = chrono::DateTime::from_timestamp(t.secs, t.nanos).unwrap();
    let later = utc.checked_add_signed(chrono::TimeDelta::seconds(d.secs));
    later.map(|u| Timestamp { secs: u.timestamp(), nanos: u.timestamp_subsec_nanos() })
}

/// `n / d`, rounded towards zero.
pub open spec fn quotient(n: int, d: int) -> int {
    if n >= 0 {
        n / d
    } else {
        -((-n) / d)
    }
}

/// The nanoseconds from `earlier` to `later`. A leap second that one of them lies within counts
/// where the other comes after it by the time of day.
pub open spec fn nanos_between(later: Timestamp, earlier: Timestamp) -> int {
    let leap: int = if later.secs % 86_400 > earlier.secs % 86_400 && earlier.nanos
        >= 1_000_000_000 {
        1
    } else if later.secs % 86_400 < earlier.secs % 86_400 && later.nanos >= 1_000_000_000 {
        -1
    } else {
        0
    };
    (later.secs - earlier.secs + leap) * 1_000_000_000 + later.nanos - earlier.nanos
}

/// The whole minutes from `earlier` to `later`, rounded towards zero.
pub open spec fn minutes_between(later: Timestamp, earlier: Timestamp) -> int {
    quotient(nanos_between(later, earlier), 60_000_000_000)
}

/// `DateTime::signed_duration_since` and `TimeDelta::num_minutes`: the whole minutes from
/// `earlier` to `later`, rounded towards zero. The dates that can be named bound it.
#[verifier::external_body]
pub(crate) fn minutes_from(earlier: Timestamp, later: Timestamp) -> (r: i64)
    requires
        earlier.wf(),
        later.wf(),
    ensures
        r == minutes_between(later, earlier),
        -1_000_000_000_000 < r < 1_000_000_000_000,
{
    let a = chrono::DateTime::from_timestamp(later.secs, 0).unwrap().naive_utc();
    let b = chrono::DateTime::from_timestamp(earlier.secs, 0).unwrap().naive_utc();
    let a = a.with_nanosecond(later.nanos).unwrap().and_utc();
    let b = b.with_nanosecond(earlier.nanos).unwrap().and_utc();
    a.signed_duration_since(b).num_minutes()
}

/// Two digits of `s` from position `i` on.
pub open spec fn two_at(s: Seq<char>, i: int) -> bool {
    is_digit(s[i]) && is_digit(s[i + 1])
}

/// The number that two digits write.
pub open spec fn value_at(s: Seq<char>, i: int) -> int {
    digit_value(s[i]) * 10 + digit_value(s[i + 1])
}

/// A text of the form `HH:MM` from position `i` on.
pub open spec fn hour_minute_at(s: Seq<char>, i: int) -> bool {
    two_at(s, i) && s[i + 2] == ':' && two_at(s, i + 3)
}

/// A text of the form `HH:MM:SS` from position `i` on.
pub open spec fn hour_minute_second_at(s: Seq<char>, i: int) -> bool {
    hour_minute_at(s, i) && s[i + 5] == ':' && two_at(s, i + 6)
}

/// The time that `HH:MM` writes at position `i`, where there is such a time.
pub open spec fn hour_minute_value(s: Seq<char>, i: int) -> Option<(int, int)> {
    if value_at(s, i) < 24 && value_at(s, i + 3) < 60 {
        Some((value_at(s, i) * 3600 + value_at(s, i + 3) * 60, 0))
    } else {
        None
    }
}

/// The time that `HH:MM:SS` writes at position `i`, where there is such a time. The second
/// numbered 60 is a leap second.
pub open spec fn hour_minute_second_value(s: Seq<char>, i: int) -> Option<(int, int)> {
    if value_at(s, i) < 24 && value_at(s, i + 3) < 60 && value_at(s, i + 6) < 60 {
        Some((value_at(s, i) * 3600 + value_at(s, i + 3) * 60 + value_at(s, i + 6), 0))
    } else if value_at(s, i) < 24 && value_at(s, i + 3) < 60 && value_at(s, i + 6) == 60 {
        Some((value_at(s, i) * 3600 + value_at(s, i + 3) * 60 + 59, 1_000_000_000))
    } else {
        None
    }
}

/// `chrono::NaiveTime::parse_from_str`: the time of day that a text writes under a format,
/// as seconds and nanoseconds, or what the error says.
pub uninterp spec fn time_read(text: Seq<char>, format: Seq<char>) -> Result<(int, int), Seq<char>>;

/// The time of day that a text writes under a format.
pub open spec fn time_of(text: Seq<char>, format: Seq<char>) -> Option<TimeOfDay> {
    match time_read(text, format) {
        Ok(t) => Some(TimeOfDay { secs: t.0 as u32, frac: t.1 as u32 }),
        Err(_) => None,
    }
}

/// The day and time that a text writes under a format.
pub open spec fn datetime_of(text: Seq<char>, format: Seq<char>) -> Option<LocalDateTime> {
    match datetime_read(text, format) {
        Some(d) => Some(
            LocalDateTime {
                day: d.0 as i32,
                time: TimeOfDay { secs: d.1 as u32, frac: d.2 as u32 },
            },
        ),
        None => None,
    }
}

pub open spec fn opt_time(t: Option<TimeOfDay>) -> Option<(int, int)> {
    match t {
        Some(t) => Some(t@),
        None => None,
    }
}

/// The time of day that was read, where there is one.
pub open spec fn time_found(r: Result<TimeOfDay, String>) -> Option<(int, int)> {
    match r {
        Ok(t) => Some(t@),
        Err(_) => None,
    }
}

/// `chrono::NaiveTime::parse_from_str`, which accepts more than two digits for each number:
/// also fewer, and white space before them. Of a text that is exactly `HH:MM` or
/// `HH:MM:SS`, the contract says what comes out under the formats of those two forms. A format
/// without seconds gives none. The wording of the error is not stated.
#[verifier::external_body]
pub(crate) fn read_time(text: &str, format: &str) -> (r: Result<TimeOfDay, String>)
    ensures
        (match r {
            Ok(t) => Ok(t@),
            Err(e) => Err(e@),
        }) == time_read(text@, format@),
        r matches Ok(t) ==> t.wf(),
        text@.len() == 5 && hour_minute_at(text@, 0) && format@ == "%H:%M"@ ==> time_found(r)
            == hour_minute_value(text@, 0),
        text@.len() == 5 && hour_minute_at(text@, 0) && format@ == "%H:%M:%S"@ ==> r is Err,
        text@.len() == 8 && hour_minute_second_at(text@, 0) && format@ == "%H:%M:%S"@
            ==> time_found(r) == hour_minute_second_value(text@, 0),
        text@.len() == 8 && hour_minute_second_at(text@, 0) && format@ == "%H:%M"@ ==> r is Err,
        format@ == "%H:%M"@ ==> (r matches Ok(t) ==> t.secs % 60 == 0 && t.frac == 0),
{
    let read = chrono::NaiveTime::parse_from_str(text, format).map_err(|e| e.to_string());
    read.map(|t| TimeOfDay { secs: t.num_seconds_from_midnight(), frac: t.nanosecond() })
}

pub open spec fn is_leap_year(y: int) -> bool {
    y % 4 == 0 && (y % 100 != 0 || y % 400 == 0)
}

/// The days of a year before the first of month `m`.
pub open spec fn days_before_month(y: int, m: int) -> int {
    let leap: int = if is_leap_year(y) {
        1
    } else {
        0
    };
    if m == 1 {
        0
    } else if m == 2 {
        31
    } else if m == 3 {
        59 + leap
    } else if m == 4 {
        90 + leap
    } else if m == 5 {
        120 + leap
    } else if m == 6 {
        151 + leap
    } else if m == 7 {
        181 + leap
    } else if m == 8 {
        212 + leap
    } else if m == 9 {
        243 + leap
    } else if m == 10 {
        273 + leap
    } else if m == 11 {
        304 + leap
    } else if m == 12 {
        334 + leap
    } else {
        365 + leap
    }
}

/// Whether the year `y` has a day `d` in its month `m`.
pub open spec fn is_date(y: int, m: int, d: int) -> bool {
    1 <= m <= 12 && 1 <= d <= days_before_month(y, m + 1) - days_before_month(y, m)
}

/// The number of a date, counted from 1 January of year 1 as day 1.
pub open spec fn day_number(y: int, m: int, d: int) -> int {
    365 * (y - 1) + (y - 1) / 4 - (y - 1) / 100 + (y - 1) / 400 + days_before_month(y, m) + d
}

/// A text that starts with a date of the form `YYYY-MM-DD` and a space.
pub open spec fn date_first(s: Seq<char>) -> bool {
    two_at(s, 0) && two_at(s, 2) && s[4] == '-' && two_at(s, 5) && s[7] == '-' && two_at(s, 8)
        && s[10] == ' '
}

/// The day that the leading `YYYY-MM-DD` writes, where there is such a day.
pub open spec fn date_value(s: Seq<char>) -> Option<int> {
    let y = value_at(s, 0) * 100 + value_at(s, 2);
    if is_date(y, value_at(s, 5), value_at(s, 8)) {
        Some(day_number(y, value_at(s, 5), value_at(s, 8)))
    } else {
        None
    }
}

/// A day and a time on it, where both are there.
pub open spec fn day_and_time(day: Option<int>, time: Option<(int, int)>) -> Option<
    (int, int, int),
> {
    match (day, time) {
        (Some(d), Some(t)) => Some((d, t.0, t.1)),
        _ => None,
    }
}

/// `chrono::NaiveDateTime::parse_from_str`: the day and time that a text writes under a
/// format, as day number, seconds and nanoseconds.
pub uninterp spec fn datetime_read(text: Seq<char>, format: Seq<char>) -> Option<(int, int, int)>;

pub open spec fn opt_datetime(d: Option<LocalDateTime>) -> Option<(int, int, int)> {
    match d {
        Some(d) => Some(d@),
        None => None,
    }
}

/// `chrono::NaiveDateTime::parse_from_str`, which accepts other spellings of the numbers and
/// of the space too. Of a text that is exactly `YYYY-MM-DD HH:MM` or `YYYY-MM-DD HH:MM:SS`,
/// the contract says what comes out under the formats of those two forms; a text that starts
/// with two digits and a colon starts with no date.
#[verifier::external_body]
pub(crate) fn read_datetime(text: &str, format: &str) -> (r: Option<LocalDateTime>)
    ensures
        opt_datetime(r) == datetime_read(text@, format@),
        r matches Some(d) ==> d.wf(),
        text@.len() == 16 && date_first(text@) && hour_minute_at(text@, 11) && format@
            == "%Y-%m-%d %H:%M"@ ==> opt_datetime(r) == day_and_time(
            date_value(text@),
            hour_minute_value(text@, 11),
        ),
        text@.len() == 16 && date_first(text@) && hour_minute_at(text@, 11) && format@
            == "%Y-%m-%d %H:%M:%S"@ ==> r is None,
        text@.len() == 19 && date_first(text@) && hour_minute_second_at(text@, 11) && format@
            == "%Y-%m-%d %H:%M:%S"@ ==> opt_datetime(r) == day_and_time(
            date_value(text@),
            hour_minute_second_value(text@, 11),
        ),
        text@.len() >= 3 && two_at(text@, 0) && text@[2] == ':' && (format@
            == "%Y-%m-%d %H:%M"@ || format@ == "%Y-%m-%d %H:%M:%S"@) ==> r is None,
{
    let read = chrono::NaiveDateTime::parse_from_str(text, format).ok();
    read.map(
        |n| LocalDateTime {
            day: n.date().num_days_from_ce(),
            time: TimeOfDay { secs: n.time().num_seconds_from_midnight(), frac: n.time().nanosecond() },
        },
    )
}

/// A form in which a day and time are written.
#[derive(Clone, Copy, Debug, PartialEq, Eq, Structural)]
pub enum Pattern {
    /// `YYYY-MM-DD HH:MM`
    Minute,
    /// `YYYY-MM-DD HH:MM:SS`
    Second,
    /// `YYYY-MM-DD HH:MM:SS UTC`
    SecondUtc,
    /// `HH:MM YYYY-MM-DD`, as at(1) reads it
    AtQueue,
    /// `YYYY-MM-DD HH:MM` and the short name of the weekday
    Weekday,
}

impl Pattern {
    /// The format string of `chrono`.
    pub open spec fn spec_format(self) -> Seq<char> {
        match self {
            Pattern::Minute => "%Y-%m-%d %H:%M"@,
            Pattern::Second => "%Y-%m-%d %H:%M:%S"@,
            Pattern::SecondUtc => "%Y-%m-%d %H:%M:%S UTC"@,
            Pattern::AtQueue => "%H:%M %Y-%m-%d"@,
            Pattern::Weekday => "%Y-%m-%d %H:%M %a"@,
        }
    }

    fn format(self) -> (r: &'static str)
        ensures
            r@ == self.spec_format(),
    {
        match self {
            Pattern::Minute => "%Y-%m-%d %H:%M",
            Pattern::Second => "%Y-%m-%d %H:%M:%S",
            Pattern::SecondUtc => "%Y-%m-%d %H:%M:%S UTC",
            Pattern::AtQueue => "%H:%M %Y-%m-%d",
            Pattern::Weekday => "%Y-%m-%d %H:%M %a",
        }
    }
}

/// `YYYY-MM-DD`, of a year of up to four digits.
pub open spec fn date_text(y: int, m: int, d: int) -> Seq<char> {
    two_digits(y / 100) + two_digits(y % 100) + "-"@ + two_digits(m) + "-"@ + two_digits(d)
}

/// `HH:MM`, of the seconds since midnight.
pub open spec fn hour_minute_text(secs: int) -> Seq<char> {
    two_digits(secs / 3600) + ":"@ + two_digits(secs / 60 % 60)
}

/// The short name of the weekday of a day number.
pub open spec fn weekday_text(day: int) -> Seq<char> {
    if day % 7 == 0 {
        "Sun"@
    } else if day % 7 == 1 {
        "Mon"@
    } else if day % 7 == 2 {
        "Tue"@
    } else if day % 7 == 3 {
        "Wed"@
    } else if day % 7 == 4 {
        "Thu"@
    } else if day % 7 == 5 {
        "Fri"@
    } else {
        "Sat"@
    }
}

/// What a pattern writes for the date `y-m-d` and a time on that day.
pub open spec fn pattern_text(
    p: Pattern,
    y: int,
    m: int,
    d: int,
    secs: int,
    nanos: int,
) -> Seq<char> {
    let second = two_digits(secs % 60 + nanos / 1_000_000_000);
    match p {
        Pattern::Minute => date_text(y, m, d) + " "@ + hour_minute_text(secs),
        Pattern::Second => date_text(y, m, d) + " "@ + hour_minute_text(secs) + ":"@ + second,
        Pattern::SecondUtc => date_text(y, m, d) + " "@ + hour_minute_text(secs) + ":"@ + second
            + " UTC"@,
        Pattern::AtQueue => hour_minute_text(secs) + " "@ + date_text(y, m, d),
        Pattern::Weekday => date_text(y, m, d) + " "@ + hour_minute_text(secs) + " "@
            + weekday_text(day_number(y, m, d)),
    }
}

/// `DateTime::format`: what `chrono` writes under a format for the day and time that lie
/// some seconds and nanoseconds after midnight of 1 January 1970, both on the same clock.
pub uninterp spec fn civil_text(secs: int, nanos: int, format: Seq<char>) -> Seq<char>;

/// `text` writes the day and time under a format: under that of a pattern, where the year
/// has up to four digits, it is `pattern_text`.
pub open spec fn is_civil_text(text: Seq<char>, secs: int, nanos: int, format: Seq<char>) -> bool {
    &&& text == civil_text(secs, nanos, format)
    &&& forall|p: Pattern, y: int, m: int, d: int|
        #![trigger p.spec_format(), is_date(y, m, d)]
        p.spec_format() == format && is_date(y, m, d) && 0 <= y <= 9999 && day_number(y, m, d)
            == secs / 86_400 + EPOCH_DAY ==> text == pattern_text(
            p,
            y,
            m,
            d,
            secs % 86_400,
            nanos,
        )
}

/// `text` writes an instant under a format, as clocks less than a day off UTC show it.
pub open spec fn is_zone_text(text: Seq<char>, t: Timestamp, format: Seq<char>) -> bool {
    exists|shift: int|
        -DAY_SECS < shift < DAY_SECS && #[trigger] is_civil_text(
            text,
            t.secs + shift,
            t.nanos as int,
            format,
        )
}

/// `DateTime::format` of an instant in UTC. A year of up to four digits is written with
/// four; other years are signed.
#[verifier::external_body]
fn format_utc(t: Timestamp, format: &str) -> (r: String)
    requires
        t.wf(),
        exists|p: Pattern| #[trigger] p.spec_format() == format@,
    ensures
        r@ == civil_text(t.secs as int, t.nanos as int, format@),
        is_civil_text(r@, t.secs as int, t.nanos as int, format@),
{
    let utc = chrono::DateTime::from_timestamp(t.secs, 0).unwrap().naive_utc();
    let utc = utc.with_nanosecond(t.nanos).unwrap().and_utc();
    utc.format(format).to_string()
}

/// `DateTime::with_timezone` with `Local`, and `DateTime::format`: an instant as the clocks
/// of the machine's time zone show it, less than a day off UTC by whole seconds. By how
/// much is left open, for it depends on the zone. The call panics where the machine's time
/// zone data cannot be used.
#[verifier::external_body]
pub fn format_local(t: Timestamp, format: &str) -> (r: String)
    requires
        t.wf(),
        exists|p: Pattern| #[trigger] p.spec_format() == format@,
    ensures
        is_zone_text(r@, t, format@),
{
    let utc = chrono::DateTime::from_timestamp(t.secs, 0).unwrap().naive_utc();
    let utc = utc.with_nanosecond(t.nanos).unwrap().and_utc();
    utc.with_timezone(&chrono::Local).format(format).to_string()
}

/// `text` is what came of writing an instant under a format as local clocks show it.
pub open spec fn is_local_text(text: Seq<char>, t: Timestamp, format: Seq<char>) -> bool {
    exists|f: &str, r: String|
        f@ == format && r@ == text && #[trigger] call_ensures(format_local, (t, f), r)
}

/// What is written of an instant as local clocks show it, is what clocks less than a day off
/// UTC show.
pub proof fn law_local_text_is_of_a_zone(text: Seq<char>, t: Timestamp, format: Seq<char>)
    requires
        is_local_text(text, t, format),
    ensures
        is_zone_text(text, t, format),
{
}

/// An instant in UTC, written under a pattern.
pub fn utc_text(t: Timestamp, p: Pattern) -> (r: String)
    requires
        t.wf(),
    ensures
        is_civil_text(r@, t.secs as int, t.nanos as int, p.spec_format()),
{
    format_utc(t, p.format())
}

/// An instant as the clocks of the machine's time zone show it, written under a pattern.
pub fn local_text(t: Timestamp, p: Pattern) -> (r: String)
    requires
        t.wf(),
    ensures
        is_local_text(r@, t, p.spec_format()),
{
    let format = p.format();
    let r = format_local(t, format);
    assert(call_ensures(format_local, (t, format), r));
    r
}

/// `NaiveTime::format` with `%H:%M`: two digits for the hour, two for the minute.
#[verifier::external_body]
pub(crate) fn hour_minute(t: TimeOfDay) -> (r: String)
    requires
        t.wf(),
    ensures
        r@ == hour_minute_text(t.secs as int),
{
    let time = chrono::NaiveTime::from_num_seconds_from_midnight_opt(t.secs, 0).unwrap();
    time.format("%H:%M").to_string()
}

/// A day and time, written under a pattern.
pub fn clock_text(d: LocalDateTime, p: Pattern) -> (r: String)
    requires
        d.wf(),
    ensures
        is_civil_text(r@, d.civil_secs(), d.time.frac as int, p.spec_format()),
{
    let secs = (d.day as i64 - EPOCH_DAY as i64) * DAY_SECS + d.time.secs as i64;
    utc_text(Timestamp { secs, nanos: d.time.frac }, p)
}

/// `HH:MM:SS`, of the seconds since midnight.
pub open spec fn hour_minute_second_text(secs: int) -> Seq<char> {
    hour_minute_text(secs) + ":"@ + two_digits(secs % 60)
}

/// The `Debug` form of `NaiveTime`, of a time of whole seconds.
#[verifier::external_body]
pub(crate) fn hour_minute_second(t: TimeOfDay) -> (r: String)
    requires
        t.wf(),
        t.frac == 0,
    ensures
        r@ == hour_minute_second_text(t.secs as int),
{
    let time = chrono::NaiveTime::from_num_seconds_from_midnight_opt(t.secs, 0).unwrap();
    format!("{:?}", time)
}

/// The fraction of a second in its shortest form of none, three, six or nine digits.
pub open spec fn fraction_text(nanos: int) -> Seq<char> {
    if nanos == 0 {
        Seq::empty()
    } else if nanos % 1_000_000 == 0 {
        "."@ + padded(nanos / 1_000_000, 3)
    } else if nanos % 1_000 == 0 {
        "."@ + padded(nanos / 1_000, 6)
    } else {
        "."@ + padded(nanos, 9)
    }
}

/// `YYYY-MM-DDTHH:MM:SS+00:00`, with the fraction of the second where there is one, of a date
/// in a year of up to four digits and of a time on that day.
pub open spec fn utc_instant_text(y: int, m: int, d: int, secs: int, nanos: int) -> Seq<char> {
    date_text(y, m, d) + "T"@ + hour_minute_text(secs) + ":"@ + two_digits(
        secs % 60 + nanos / 1_000_000_000,
    ) + fraction_text(nanos % 1_000_000_000) + "+00:00"@
}

/// `DateTime::to_rfc3339`, of an instant in UTC given by its seconds and nanoseconds.
pub uninterp spec fn rfc3339_text(secs: int, nanos: int) -> Seq<char>;

/// `str::parse` to `DateTime<Utc>`: the seconds and nanoseconds of the instant that a text
/// writes.
pub uninterp spec fn instant_read(text: Seq<char>) -> Option<(int, int)>;

/// The instant that a text writes.
pub open spec fn instant_of(text: Seq<char>) -> Option<Timestamp> {
    match instant_read(text) {
        Some(t) => Some(Timestamp { secs: t.0 as i64, nanos: t.1 as u32 }),
        None => None,
    }
}

/// Whether an instant lies within a leap second only where there can be one, at the end of a
/// minute.
pub open spec fn leap_in_place(t: Timestamp) -> bool {
    t.nanos < 1_000_000_000 || t.secs % 60 == 59
}

/// `DateTime::to_rfc3339` of an instant in UTC. A year of up to four digits is written with
/// four; other years are signed, and what is written of them is not stated further. What it
/// writes is read back by `str::parse` to `DateTime<Utc>`.
#[verifier::external_body]
fn format_instant(t: Timestamp) -> (r: String)
    requires
        t.wf(),
    ensures
        r@ == rfc3339_text(t.secs as int, t.nanos as int),
        forall|y: int, m: int, d: int|
            #[trigger] is_date(y, m, d) && 0 <= y <= 9999 && day_number(y, m, d) == t.secs as int
                / 86_400 + EPOCH_DAY ==> r@ == utc_instant_text(
                y,
                m,
                d,
                t.secs as int % 86_400,
                t.nanos as int,
            ),
        leap_in_place(t) ==> instant_read(r@) == Some((t.secs as int, t.nanos as int)),
{
    let utc = chrono::DateTime::from_timestamp(t.secs, 0).unwrap().naive_utc();
    utc.with_nanosecond(t.nanos).unwrap().and_utc().to_rfc3339()
}

/// `str::parse` to `DateTime<Utc>`: the instant that a text writes, where it writes one. Which
/// texts do, beyond those that `DateTime::to_rfc3339` writes, is not stated.
#[verifier::external_body]
pub(crate) fn read_instant(text: &str) -> (r: Option<Timestamp>)
    ensures
        (match r {
            Some(t) => Some((t.secs as int, t.nanos as int)),
            None => None,
        }) == instant_read(text@),
        r matches Some(t) ==> t.wf(),
{
    let read = text.parse::<chrono::DateTime<chrono::Utc>>().ok();
    read.map(|t| Timestamp { secs: t.timestamp(), nanos: t.timestamp_subsec_nanos() })
}

/// An instant as it is stored: a date and a time in UTC, which read back as the same instant.
pub fn instant_text(t: Timestamp) -> (r: String)
    requires
        t.wf(),
    ensures
        r@ == rfc3339_text(t.secs as int, t.nanos as int),
        forall|y: int, m: int, d: int|
            #[trigger] is_date(y, m, d) && 0 <= y <= 9999 && day_number(y, m, d) == t.secs as int
                / 86_400 + EPOCH_DAY ==> r@ == utc_instant_text(
                y,
                m,
                d,
                t.secs as int % 86_400,
                t.nanos as int,
            ),
        leap_in_place(t) ==> instant_of(r@) == Some(t),
{
    format_instant(t)
}

/// Instants are ordered by their seconds, and within a second by their nanoseconds; times of
/// day are, too.
pub proof fn law_order_is_by_seconds_and_fraction(
    a: Timestamp,
    b: Timestamp,
    t: TimeOfDay,
    u: TimeOfDay,
)
    requires
        a.wf(),
        b.wf(),
        t.wf(),
        u.wf(),
    ensures
        a.spec_le(b) <==> a.secs * 2_000_000_000 + a.nanos <= b.secs * 2_000_000_000 + b.nanos,
        a.spec_lt(b) <==> a.secs * 2_000_000_000 + a.nanos < b.secs * 2_000_000_000 + b.nanos,
        t.spec_le(u) <==> t.secs * 2_000_000_000 + t.frac <= u.secs * 2_000_000_000 + u.frac,
{
}

/// A time to the minute is the start of the minute that it lies in.
pub proof fn law_minute_starts_no_later(t: TimeOfDay)
    requires
        t.wf(),
    ensures
        t.spec_to_minute().frac == 0,
        t.spec_to_minute().secs % 60 == 0,
        t.spec_to_minute().secs <= t.secs < t.spec_to_minute().secs + 60,
{
}

/// Between two instants outside leap seconds lie as many minutes as whole ones fit between
/// them, and as many back as forth.
pub proof fn law_minutes_fit_between(later: Timestamp, earlier: Timestamp)
    requires
        earlier.spec_le(later),
        earlier.nanos < 1_000_000_000,
        later.nanos < 1_000_000_000,
    ensures
        ({
            let m = minutes_between(later, earlier);
            let d = (later.secs - earlier.secs) * 1_000_000_000 + later.nanos - earlier.nanos;
            0 <= m && m * 60_000_000_000 <= d < (m + 1) * 60_000_000_000
        }),
        minutes_between(earlier, later) == -minutes_between(later, earlier),
{
}

/// A time of day is written as its hour and its minute, of two digits each, and its second
/// where that is told.
pub proof fn law_clock_digits(h: int, m: int, s: int)
    requires
        0 <= h < 24,
        0 <= m < 60,
        0 <= s < 60,
    ensures
        hour_minute_text(h * 3600 + m * 60 + s) == two_digits(h) + seq![':'] + two_digits(m),
        hour_minute_second_text(h * 3600 + m * 60 + s) == two_digits(h) + seq![':'] + two_digits(m)
            + seq![':'] + two_digits(s),
{
    reveal_strlit(":");
    assert(":"@ == seq![':']);
    let t = h * 3600 + m * 60 + s;
    assert(t / 3600 == h);
    assert(t / 60 % 60 == m);
    assert(t % 60 == s);
}

/// The forms in which days and times are written.
pub proof fn law_patterns_have_their_formats()
    ensures
        Pattern::Minute.spec_format() == "%Y-%m-%d %H:%M"@,
        Pattern::Second.spec_format() == "%Y-%m-%d %H:%M:%S"@,
        Pattern::SecondUtc.spec_format() == "%Y-%m-%d %H:%M:%S UTC"@,
        Pattern::AtQueue.spec_format() == "%H:%M %Y-%m-%d"@,
        Pattern::Weekday.spec_format() == "%Y-%m-%d %H:%M %a"@,
{
}

} // verus!

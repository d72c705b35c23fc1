//! Reading times that a user writes: an instant (`tomorrow 14:00`, `in 2 hours`), a length of
//! time (`1h30m`) and a range of times of day (`22:00-08:00`).
use crate::job::{either, TimeRange};
use crate::moment::{
    date_first, date_value, datetime_of, day_and_time, hour_minute_at, hour_minute_second_at,
    hour_minute_second_value, hour_minute_value, instant_after, is_answer, is_now, is_shown_at,
    local_clock, local_instant, opt_time, read_datetime, read_time, time_of, time_read, utc_now, Duration,
    LocalDateTime, TimeOfDay, Timestamp, MAX_SECS, MAX_SPAN_SECS, MIN_SECS,
};
use crate::number::{
    all_digits, decimal, digit_value, lemma_decimal_reads_back, lemma_digits_value_bounds,
    parse_signed, signed, signed_error, signed_fault, two_digits,
};
use crate::text::{
    after_prefix, all_white, ascii_lowered, before_suffix, chars_of, ends_with, find_char, has_char,
    has_text, is_ascii_digit, is_ascii_text, is_digit, is_white, joined,
    law_case_makes_no_difference, law_text_within, law_white_space_around_is_trimmed,
    lemma_find_char, lemma_pieces_of_joined, lower_text, lowercase, pieces, quote, quoted, split_on,
    starts_with, strip_prefix, strip_suffix, trim, trimmed, views,
};
use vstd::prelude::*;

verus! {

/// Why a text names no time.
#[derive(Debug)]
pub enum TimeInputError {
    /// The text has none of the forms of an instant.
    Unsupported(String),
    /// The text that follows `today` or `tomorrow` is no time of day.
    BadTime(String),
    /// A count is no number; this is said about it.
    BadNumber(String),
    /// The instant or the span lies beyond what can be held.
    OutOfRange,
    /// The clocks of the machine's time zone never show this time, or show it twice.
    NoLocalTime,
    /// The text is no length of time, or one of no length.
    BadDuration(String),
    /// The text is not two times with a hyphen between them.
    RangeFormat,
    /// One of the ends of a range is no time of day; this is said about it.
    RangeTime(String),
}

#[verifier::ext_equal]
pub enum Fault {
    Unsupported(Seq<char>),
    BadTime(Seq<char>),
    BadNumber(Seq<char>),
    OutOfRange,
    NoLocalTime,
    BadDuration(Seq<char>),
    RangeFormat,
    RangeTime(Seq<char>),
}

impl View for TimeInputError {
    type V = Fault;

    open spec fn view(&self) -> Fault {
        match *self {
            TimeInputError::Unsupported(s) => Fault::Unsupported(s@),
            TimeInputError::BadTime(s) => Fault::BadTime(s@),
            TimeInputError::BadNumber(s) => Fault::BadNumber(s@),
            TimeInputError::OutOfRange => Fault::OutOfRange,
            TimeInputError::NoLocalTime => Fault::NoLocalTime,
            TimeInputError::BadDuration(s) => Fault::BadDuration(s@),
            TimeInputError::RangeFormat => Fault::RangeFormat,
            TimeInputError::RangeTime(s) => Fault::RangeTime(s@),
        }
    }
}

impl Fault {
    /// What a user is told.
    pub open spec fn message(self) -> Seq<char> {
        match self {
            Fault::Unsupported(s) => "Could not parse datetime: "@ + quoted(s)
                + ". Supported forms: 'YYYY-MM-DD HH:MM[:SS]', 'today HH:MM[:SS]', 'tomorrow HH:MM[:SS]', 'in N (minutes|hours|days)', 'HH:MM[:SS]'."@,
            Fault::BadTime(s) => "Invalid time "@ + quoted(s)
                + ", expected HH:MM or HH:MM:SS"@,
            Fault::BadNumber(s) => s,
            Fault::OutOfRange => "Time out of range"@,
            Fault::NoLocalTime => "Invalid local datetime"@,
            Fault::BadDuration(s) => "Invalid duration: "@ + s,
            Fault::RangeFormat => "Invalid time range format, expected 'HH:MM-HH:MM'"@,
            Fault::RangeTime(s) => s,
        }
    }
}

impl TimeInputError {
    /// What a user is told.
    pub fn message(&self) -> (r: String)
        ensures
            r@ == self@.message(),
    {
        match self {
            TimeInputError::Unsupported(s) => {
                let mut r = "Could not parse datetime: ".to_owned();
                r.append(quote(s.as_str()).as_str());
                r.append(
                    ". Supported forms: 'YYYY-MM-DD HH:MM[:SS]', 'today HH:MM[:SS]', 'tomorrow HH:MM[:SS]', 'in N (minutes|hours|days)', 'HH:MM[:SS]'.",
                );
                r
            },
            TimeInputError::BadTime(s) => {
                let mut r = "Invalid time ".to_owned();
                r.append(quote(s.as_str()).as_str());
                r.append(", expected HH:MM or HH:MM:SS");
                r
            },
            TimeInputError::BadNumber(s) => s.clone(),
            TimeInputError::OutOfRange => "Time out of range".to_owned(),
            TimeInputError::NoLocalTime => "Invalid local datetime".to_owned(),
            TimeInputError::BadDuration(s) => {
                let mut r = "Invalid duration: ".to_owned();
                r.append(s.as_str());
                r
            },
            TimeInputError::RangeFormat => {
                "Invalid time range format, expected 'HH:MM-HH:MM'".to_owned()
            },
            TimeInputError::RangeTime(s) => s.clone(),
        }
    }
}

/// What a text says of an instant, before the clock is read.
#[derive(Clone, Copy, Debug, PartialEq, Eq, Structural)]
pub enum When {
    /// A span from now.
    After(Duration),
    /// A time of today.
    Today(TimeOfDay),
    /// A time of tomorrow.
    Tomorrow(TimeOfDay),
    /// A day and a time.
    At(LocalDateTime),
    /// The next time that clocks show this, today or tomorrow.
    Next(TimeOfDay),
}

impl When {
    pub open spec fn wf(self) -> bool {
        match self {
            When::After(d) => d.wf(),
            When::Today(t) => t.wf(),
            When::Tomorrow(t) => t.wf(),
            When::At(d) => d.wf(),
            When::Next(t) => t.wf(),
        }
    }
}

/// A count of days, hours or minutes: the text of the number, and the seconds of the unit.
pub open spec fn count_and_unit(s: Seq<char>) -> Option<(Seq<char>, int)> {
    let days = either(before_suffix(s, " days"@), before_suffix(s, " day"@));
    let hours = either(before_suffix(s, " hours"@), before_suffix(s, " hour"@));
    let minutes = either(
        before_suffix(s, " minutes"@),
        either(before_suffix(s, " minute"@), before_suffix(s, " min"@)),
    );
    match (days, hours, minutes) {
        (Some(num), _, _) => Some((num, 86_400)),
        (None, Some(num), _) => Some((num, 3_600)),
        (None, None, Some(num)) => Some((num, 60)),
        (None, None, None) => None,
    }
}

/// The span of a text `N days`, `N hours` or `N minutes`; none where the unit is another.
pub open spec fn relative_of(rest: Seq<char>) -> Option<Result<When, Fault>> {
    match count_and_unit(trimmed(rest)) {
        None => None,
        Some((num, unit)) => match signed(trimmed(num)) {
            None => Some(Err(Fault::BadNumber(signed_fault(trimmed(num))))),
            Some(n) => if -MAX_SPAN_SECS <= n * unit <= MAX_SPAN_SECS {
                Some(Ok(When::After(Duration { secs: (n * unit) as i64 })))
            } else {
                Some(Err(Fault::OutOfRange))
            },
        },
    }
}

/// The span of a text that starts with `in`.
pub open spec fn leading_in(s: Seq<char>) -> Option<Result<When, Fault>> {
    match after_prefix(s, "in "@) {
        Some(rest) => relative_of(rest),
        None => None,
    }
}

/// The part of a text in which a time of day stands: what follows `today` or `tomorrow`, or
/// all of it.
pub open spec fn time_part(s: Seq<char>) -> Seq<char> {
    match (after_prefix(s, "today"@), after_prefix(s, "tomorrow"@)) {
        (Some(rest), _) => trimmed(rest),
        (None, Some(rest)) => trimmed(rest),
        (None, None) => s,
    }
}

/// What a text in lower case says of an instant, given what its time part reads as, and what
/// the whole of it reads as with seconds and without.
pub open spec fn when_of(
    s: Seq<char>,
    time: Option<TimeOfDay>,
    second: Option<LocalDateTime>,
    minute: Option<LocalDateTime>,
) -> Result<When, Fault> {
    if leading_in(s) is Some {
        leading_in(s)->0
    } else if starts_with(s, "today"@) {
        match time {
            Some(t) => Ok(When::Today(t)),
            None => Err(Fault::BadTime(time_part(s))),
        }
    } else if starts_with(s, "tomorrow"@) {
        match time {
            Some(t) => Ok(When::Tomorrow(t)),
            None => Err(Fault::BadTime(time_part(s))),
        }
    } else {
        match (second, minute, time) {
            (Some(d), _, _) => Ok(When::At(d)),
            (None, Some(d), _) => Ok(When::At(d)),
            (None, None, Some(t)) => Ok(When::Next(t)),
            (None, None, None) => Err(Fault::Unsupported(s)),
        }
    }
}

/// `HH:MM:SS` or `HH:MM`.
pub open spec fn hms_of(s: Seq<char>) -> Option<TimeOfDay> {
    either(time_of(s, "%H:%M:%S"@), time_of(s, "%H:%M"@))
}

/// What a text in lower case says of an instant.
pub open spec fn reading(s: Seq<char>) -> Result<When, Fault> {
    when_of(
        s,
        hms_of(time_part(s)),
        datetime_of(s, "%Y-%m-%d %H:%M:%S"@),
        datetime_of(s, "%Y-%m-%d %H:%M"@),
    )
}

pub open spec fn when_result(r: Result<When, TimeInputError>) -> Result<When, Fault> {
    match r {
        Ok(w) => Ok(w),
        Err(e) => Err(e@),
    }
}

/// The span of a text `N days`, `N hours` or `N minutes`; none where the unit is another.
pub fn parse_in_relative(rest: &str) -> (r: Option<Result<When, TimeInputError>>)
    ensures
        r is Some <==> relative_of(rest@) is Some,
        r matches Some(w) ==> relative_of(rest@) == Some(when_result(w)),
        r matches Some(Ok(w)) ==> w.wf(),
{
    let rest = trim(rest);
    let (num, unit): (&str, i64) = if let Some(num) = strip_suffix(rest, " days") {
        (num, 86_400)
    } else if let Some(num) = strip_suffix(rest, " day") {
        (num, 86_400)
    } else if let Some(num) = strip_suffix(rest, " hours") {
        (num, 3_600)
    } else if let Some(num) = strip_suffix(rest, " hour") {
        (num, 3_600)
    } else if let Some(num) = strip_suffix(rest, " minutes") {
        (num, 60)
    } else if let Some(num) = strip_suffix(rest, " minute") {
        (num, 60)
    } else if let Some(num) = strip_suffix(rest, " min") {
        (num, 60)
    } else {
        return None;
    };
    let count = trim(num);
    let n = match parse_signed(count) {
        Some(n) => n,
        None => {
            return Some(Err(TimeInputError::BadNumber(signed_error(count))));
        },
    };
    let span = if unit == 86_400 {
        Duration::days(n)
    } else if unit == 3_600 {
        Duration::hours(n)
    } else {
        Duration::minutes(n)
    };
    match span {
        Some(d) => Some(Ok(When::After(d))),
        None => Some(Err(TimeInputError::OutOfRange)),
    }
}

/// The time of day that `HH:MM` or `HH:MM:SS` writes.
pub fn parse_hms(s: &str) -> (r: Option<TimeOfDay>)
    ensures
        r == hms_of(s@),
        r matches Some(t) ==> t.wf(),
        s@.len() == 5 && hour_minute_at(s@, 0) ==> opt_time(r) == hour_minute_value(s@, 0),
        s@.len() == 8 && hour_minute_second_at(s@, 0) ==> opt_time(r)
            == hour_minute_second_value(s@, 0),
{
    match read_time(s, "%H:%M:%S") {
        Ok(t) => Some(t),
        Err(_) => match read_time(s, "%H:%M") {
            Ok(t) => Some(t),
            Err(_) => None,
        },
    }
}

/// What a text in lower case says of an instant, given what its time part reads as, and what
/// the whole of it reads as with seconds and without.
pub fn choose_form(
    s: &str,
    time: Option<TimeOfDay>,
    second: Option<LocalDateTime>,
    minute: Option<LocalDateTime>,
) -> (r: Result<When, TimeInputError>)
    requires
        time matches Some(t) ==> t.wf(),
        second matches Some(d) ==> d.wf(),
        minute matches Some(d) ==> d.wf(),
    ensures
        when_result(r) == when_of(s@, time, second, minute),
        r matches Ok(w) ==> w.wf(),
{
    if let Some(rest) = strip_prefix(s, "in ") {
        if let Some(w) = parse_in_relative(rest) {
            return w;
        }
    }
    if let Some(rest) = strip_prefix(s, "today") {
        return match time {
            Some(t) => Ok(When::Today(t)),
            None => Err(TimeInputError::BadTime(trim(rest).to_owned())),
        };
    }
    if let Some(rest) = strip_prefix(s, "tomorrow") {
        return match time {
            Some(t) => Ok(When::Tomorrow(t)),
            None => Err(TimeInputError::BadTime(trim(rest).to_owned())),
        };
    }
    match (second, minute, time) {
        (Some(d), _, _) => Ok(When::At(d)),
        (None, Some(d), _) => Ok(When::At(d)),
        (None, None, Some(t)) => Ok(When::Next(t)),
        (None, None, None) => Err(TimeInputError::Unsupported(s.to_owned())),
    }
}


/// A text of exactly the form `HH:MM` or `HH:MM:SS`, and the time that it writes where there
/// is such a time.
pub open spec fn plain_time(s: Seq<char>) -> Option<Option<(int, int)>> {
    if s.len() == 5 && hour_minute_at(s, 0) {
        Some(hour_minute_value(s, 0))
    } else if s.len() == 8 && hour_minute_second_at(s, 0) {
        Some(hour_minute_second_value(s, 0))
    } else {
        None
    }
}

/// The day and time that a text of exactly the form `YYYY-MM-DD HH:MM` or
/// `YYYY-MM-DD HH:MM:SS` writes, where there is such a day and time.
pub open spec fn plain_datetime(s: Seq<char>) -> Option<(int, int, int)> {
    if s.len() == 16 && date_first(s) && hour_minute_at(s, 11) {
        day_and_time(date_value(s), hour_minute_value(s, 11))
    } else if s.len() == 19 && date_first(s) && hour_minute_second_at(s, 11) {
        day_and_time(date_value(s), hour_minute_second_value(s, 11))
    } else {
        None
    }
}

/// The value of a time of day, where there is one.
pub open spec fn as_time(t: Option<(int, int)>) -> Option<TimeOfDay> {
    match t {
        Some(t) => Some(TimeOfDay { secs: t.0 as u32, frac: t.1 as u32 }),
        None => None,
    }
}

/// A text that starts with a digit starts with no word.
proof fn lemma_digit_first(s: Seq<char>)
    requires
        s.len() > 0,
        is_digit(s[0]),
    ensures
        leading_in(s) is None,
        !starts_with(s, "today"@),
        !starts_with(s, "tomorrow"@),
        time_part(s) == s,
{
    reveal_strlit("in ");
    reveal_strlit("today");
    reveal_strlit("tomorrow");
    assert(starts_with(s, "in "@) ==> s.take(3)[0] == s[0]);
    assert(starts_with(s, "today"@) ==> s.take(5)[0] == s[0]);
    assert(starts_with(s, "tomorrow"@) ==> s.take(8)[0] == s[0]);
}

/// A text that starts with one of the words starts with no other.
proof fn lemma_words_first(s: Seq<char>)
    ensures
        starts_with(s, "today"@) ==> leading_in(s) is None && !starts_with(s, "tomorrow"@)
            && time_part(s) == trimmed(s.skip(5)),
        starts_with(s, "tomorrow"@) ==> leading_in(s) is None && !starts_with(s, "today"@)
            && time_part(s) == trimmed(s.skip(8)),
{
    reveal_strlit("in ");
    reveal_strlit("today");
    reveal_strlit("tomorrow");
    assert(starts_with(s, "in "@) ==> s.take(3)[0] == s[0]);
    assert(starts_with(s, "today"@) ==> s.take(5)[0] == s[0] && s.take(5)[2] == s[2]);
    assert(starts_with(s, "tomorrow"@) ==> s.take(8)[0] == s[0] && s.take(8)[2] == s[2]);
}

/// What a text in lower case says of an instant.
pub fn parse_when(s: &str) -> (r: Result<When, TimeInputError>)
    ensures
        when_result(r) == reading(s@),
        r matches Ok(w) ==> w.wf(),
        leading_in(s@) is None && plain_time(time_part(s@)) is Some ==> when_result(r) == when_of(
            s@,
            as_time(plain_time(time_part(s@))->0),
            None,
            None,
        ),
        plain_datetime(s@) matches Some(v) ==> r matches Ok(When::At(d)) && d@ == v,
        starts_with(s@, "tomorrow"@) ==> match plain_time(trimmed(s@.skip(8))) {
            Some(Some(v)) => r matches Ok(When::Tomorrow(t)) && t@ == v,
            Some(None) => r matches Err(TimeInputError::BadTime(_)),
            None => true,
        },
        starts_with(s@, "today"@) ==> match plain_time(trimmed(s@.skip(5))) {
            Some(Some(v)) => r matches Ok(When::Today(t)) && t@ == v,
            Some(None) => r matches Err(TimeInputError::BadTime(_)),
            None => true,
        },
        match plain_time(s@) {
            Some(Some(v)) => r matches Ok(When::Next(t)) && t@ == v,
            Some(None) => r matches Err(TimeInputError::Unsupported(_)),
            None => true,
        },
{
    let part = match strip_prefix(s, "today") {
        Some(rest) => trim(rest),
        None => match strip_prefix(s, "tomorrow") {
            Some(rest) => trim(rest),
            None => s,
        },
    };
    let time = parse_hms(part);
    let second = read_datetime(s, "%Y-%m-%d %H:%M:%S");
    let minute = read_datetime(s, "%Y-%m-%d %H:%M");
    proof {
        assert(part@ == time_part(s@));
        assert(second == datetime_of(s@, "%Y-%m-%d %H:%M:%S"@));
        assert(minute == datetime_of(s@, "%Y-%m-%d %H:%M"@));
        if plain_time(part@) is Some {
            assert(time == as_time(plain_time(part@)->0));
            if part@ == s@ {
                lemma_digit_first(s@);
                assert(second is None && minute is None);
            }
        }
        if plain_datetime(s@) is Some {
            lemma_digit_first(s@);
        }
        if plain_time(s@) is Some {
            lemma_digit_first(s@);
        }
        lemma_words_first(s@);
        assert(opt_time(time) == match plain_time(part@) {
            Some(v) => v,
            None => opt_time(time),
        });
    }
    choose_form(s, time, second, minute)
}

/// The last second at which tomorrow is a day that can be named, whatever the time zone.
pub const LAST_NOW: i64 = 8_210_266_703_999;

/// The day and time that clocks must show for a text to be met, on a given day.
pub open spec fn first_asked(w: When, today: int) -> LocalDateTime {
    match w {
        When::Today(t) => LocalDateTime { day: today as i32, time: t },
        When::Next(t) => LocalDateTime { day: today as i32, time: t },
        When::Tomorrow(t) => LocalDateTime { day: (today + 1) as i32, time: t },
        When::At(d) => d,
        When::After(_) => arbitrary(),
    }
}

/// The instant that is meant, given the present instant and the instants at which local
/// clocks show what is asked for first and what is asked for should that have passed.
pub open spec fn settled(
    w: When,
    now: Timestamp,
    first: Option<Timestamp>,
    second: Option<Timestamp>,
) -> Result<Timestamp, Fault> {
    let chosen = match (w, first) {
        (When::Next(_), Some(t)) => if t.spec_le(now) {
            second
        } else {
            first
        },
        _ => first,
    };
    match (w, chosen) {
        (When::After(d), _) => if MIN_SECS <= now.secs + d.secs <= MAX_SECS {
            Ok(Timestamp { secs: (now.secs + d.secs) as i64, nanos: now.nanos })
        } else {
            Err(Fault::OutOfRange)
        },
        (_, Some(t)) => Ok(t),
        (_, None) => Err(Fault::NoLocalTime),
    }
}

pub open spec fn instant_result(r: Result<Timestamp, TimeInputError>) -> Result<
    Timestamp,
    Fault,
> {
    match r {
        Ok(t) => Ok(t),
        Err(e) => Err(e@),
    }
}

/// The instant at which local clocks show what is asked for, where there is one.
fn answered(t: Option<Timestamp>) -> (r: Result<Timestamp, TimeInputError>)
    ensures
        instant_result(r) == match t {
            Some(t) => Ok(t),
            None => Err(Fault::NoLocalTime),
        },
{
    match t {
        Some(t) => Ok(t),
        None => Err(TimeInputError::NoLocalTime),
    }
}

/// The instant that is meant, given the present instant and the instants at which local
/// clocks show what is asked for first and what is asked for should that have passed.
pub fn settle(
    w: When,
    now: Timestamp,
    first: Option<Timestamp>,
    second: Option<Timestamp>,
) -> (r: Result<Timestamp, TimeInputError>)
    requires
        w.wf(),
        now.wf(),
        now.nanos < 1_000_000_000,
    ensures
        instant_result(r) == settled(w, now, first, second),
{
    let chosen = match w {
        When::After(d) => {
            return match instant_after(now, d) {
                Some(t) => Ok(t),
                None => Err(TimeInputError::OutOfRange),
            };
        },
        When::Next(_) => match first {
            Some(t) => if t.le(&now) {
                second
            } else {
                first
            },
            None => first,
        },
        _ => first,
    };
    answered(chosen)
}

/// `r` is what is meant, for a look at the clock that gave `now`, at which local clocks were
/// found to show `today`, and for what the local time zone answered when it was asked for what
/// is meant first and for what is meant should that have passed. A span needs the clock alone,
/// and a day with a time the zone alone.
pub open spec fn met(
    w: When,
    now: Timestamp,
    today: LocalDateTime,
    first: Option<Timestamp>,
    second: Option<Timestamp>,
    r: Result<Timestamp, Fault>,
) -> bool {
    match w {
        When::After(_) => is_now(now) && r == settled(w, now, None, None),
        When::At(d) => is_answer(first, d) && r == settled(w, now, first, None),
        _ => {
            &&& is_now(now)
            &&& if now.secs > LAST_NOW {
                r == Err::<Timestamp, Fault>(Fault::OutOfRange)
            } else {
                &&& is_shown_at(today, now)
                &&& is_answer(first, first_asked(w, today.day as int))
                &&& w matches When::Next(t) ==> is_answer(
                    second,
                    first_asked(When::Tomorrow(t), today.day as int),
                )
                &&& r == settled(w, now, first, second)
            }
        },
    }
}

/// `r` is what is meant, at the present instant and in the local time zone.
pub open spec fn met_now(w: When, r: Result<Timestamp, Fault>) -> bool {
    exists|
        now: Timestamp,
        today: LocalDateTime,
        first: Option<Timestamp>,
        second: Option<Timestamp>,
    | #[trigger]
        met(w, now, today, first, second, r)
}

/// The instant that a text names, now and in the local time zone. Which instant the clock shows
/// and what the zone answers is left open; the clock is looked at and the zone is asked as
/// `met` says.
pub fn parse_datetime(s: &str) -> (r: Result<Timestamp, TimeInputError>)
    ensures
        match reading(lower_text(trimmed(s@))) {
            Ok(w) => met_now(w, instant_result(r)),
            Err(f) => instant_result(r) == Err::<Timestamp, Fault>(f),
        },
        r matches Ok(t) ==> t.wf(),
        leading_in(lower_text(trimmed(s@))) is None && plain_time(
            time_part(lower_text(trimmed(s@))),
        ) is Some ==> reading(lower_text(trimmed(s@))) == when_of(
            lower_text(trimmed(s@)),
            as_time(plain_time(time_part(lower_text(trimmed(s@))))->0),
            None,
            None,
        ),
        plain_datetime(lower_text(trimmed(s@))) matches Some(v) ==> reading(
            lower_text(trimmed(s@)),
        ) matches Ok(When::At(d)) && d@ == v,
        ({
            let text = lower_text(trimmed(s@));
            &&& starts_with(text, "tomorrow"@) ==> (plain_time(trimmed(text.skip(8)))
                matches Some(Some(v)) ==> (reading(text) matches Ok(When::Tomorrow(t)) && t@ == v))
            &&& starts_with(text, "today"@) ==> (plain_time(trimmed(text.skip(5)))
                matches Some(Some(v)) ==> (reading(text) matches Ok(When::Today(t)) && t@ == v))
            &&& plain_time(text) matches Some(Some(v)) ==> (reading(text) matches Ok(
                When::Next(t),
            ) && t@ == v)
        }),
{
    let text = lowercase(trim(s));
    let w = match parse_when(text.as_str()) {
        Ok(w) => w,
        Err(e) => {
            return Err(e);
        },
    };
    if let When::At(d) = w {
        let first = local_instant(d);
        let r = answered(first);
        assert(met(w, arbitrary(), arbitrary(), first, None, instant_result(r)));
        return r;
    }
    let now = utc_now();
    if let When::After(_) = w {
        let r = settle(w, now, None, None);
        assert(met(w, now, arbitrary(), None, None, instant_result(r)));
        return r;
    }
    if now.secs > LAST_NOW {
        let ghost f = Err::<Timestamp, Fault>(Fault::OutOfRange);
        assert(met(w, now, arbitrary(), None, None, f));
        return Err(TimeInputError::OutOfRange);
    }
    let local = local_clock(now);
    let (asked, later) = match w {
        When::Today(t) => (LocalDateTime { day: local.day, time: t }, None),
        When::Tomorrow(t) => (LocalDateTime { day: local.day + 1, time: t }, None),
        When::Next(t) => (
            LocalDateTime { day: local.day, time: t },
            Some(LocalDateTime { day: local.day + 1, time: t }),
        ),
        When::After(_) | When::At(_) => {
            return Err(TimeInputError::OutOfRange);
        },
    };
    let first = local_instant(asked);
    let second = match later {
        Some(d) => local_instant(d),
        None => None,
    };
    let r = settle(w, now, first, second);
    assert(met(w, now, local, first, second, instant_result(r)));
    r
}

/// A span is counted from the present instant, to the second.
pub proof fn law_span_from_now(d: Duration, r: Result<Timestamp, Fault>)
    requires
        met_now(When::After(d), r),
    ensures
        exists|now: Timestamp| #[trigger] is_now(now) && match r {
            Ok(t) => t.secs == now.secs + d.secs && t.nanos == now.nanos,
            Err(f) => f == Fault::OutOfRange && !(MIN_SECS <= now.secs + d.secs <= MAX_SECS),
        },
{
    let (now, today, first, second) = choose|
        now: Timestamp,
        today: LocalDateTime,
        first: Option<Timestamp>,
        second: Option<Timestamp>,
    | #[trigger]
        met(When::After(d), now, today, first, second, r);
    assert(is_now(now));
}

/// A day with a time is met where local clocks show it, and refused only where they show it
/// never or twice, whatever the clock says.
pub proof fn law_absolute_time_is_shown(d: LocalDateTime, r: Result<Timestamp, Fault>)
    requires
        met_now(When::At(d), r),
    ensures
        exists|first: Option<Timestamp>| #[trigger] is_answer(first, d) && match first {
            Some(t) => r == Ok::<Timestamp, Fault>(t) && d.may_show(t),
            None => r == Err::<Timestamp, Fault>(Fault::NoLocalTime),
        },
{
    let (now, today, first, second) = choose|
        now: Timestamp,
        today: LocalDateTime,
        first: Option<Timestamp>,
        second: Option<Timestamp>,
    | #[trigger]
        met(When::At(d), now, today, first, second, r);
    assert(is_answer(first, d));
}

/// A bare time of day is met today where that is still to come, and tomorrow otherwise.
pub proof fn law_bare_time_is_next(
    t: TimeOfDay,
    now: Timestamp,
    today: LocalDateTime,
    first: Option<Timestamp>,
    second: Option<Timestamp>,
    r: Timestamp,
)
    requires
        met(When::Next(t), now, today, first, second, Ok(r)),
        now.secs <= LAST_NOW,
    ensures
        now.spec_lt(r) && (LocalDateTime { day: today.day, time: t }).may_show(r) || (first
            matches Some(f) && f.spec_le(now) && (LocalDateTime {
            day: (today.day + 1) as i32,
            time: t,
        }).may_show(r)),
{
}

/// Text around which there is no white space is left alone by trimming.
pub proof fn lemma_trimmed_is_same(s: Seq<char>)
    requires
        s.len() > 0,
        !is_white(s[0]),
        !is_white(s.last()),
    ensures
        trimmed(s) == s,
{
}

/// `in N hours`, and so for minutes and days, names a span of that many hours, for every `N`
/// that can be held. The units may be singular, and minutes shortened to `min`.
pub proof fn law_counts_are_read(n: int)
    requires
        0 <= n,
        n * 86_400 <= MAX_SPAN_SECS,
    ensures
        leading_in("in "@ + decimal(n) + " minutes"@) == Some(
            Ok::<When, Fault>(When::After(Duration { secs: (n * 60) as i64 })),
        ),
        leading_in("in "@ + decimal(n) + " hours"@) == Some(
            Ok::<When, Fault>(When::After(Duration { secs: (n * 3_600) as i64 })),
        ),
        leading_in("in "@ + decimal(n) + " days"@) == Some(
            Ok::<When, Fault>(When::After(Duration { secs: (n * 86_400) as i64 })),
        ),
        leading_in("in "@ + decimal(n) + " minute"@) == leading_in(
            "in "@ + decimal(n) + " minutes"@,
        ),
        leading_in("in "@ + decimal(n) + " min"@) == leading_in(
            "in "@ + decimal(n) + " minutes"@,
        ),
        leading_in("in "@ + decimal(n) + " hour"@) == leading_in("in "@ + decimal(n) + " hours"@),
        leading_in("in "@ + decimal(n) + " day"@) == leading_in("in "@ + decimal(n) + " days"@),
{
    lemma_decimal_reads_back(n);
    reveal_strlit("in ");
    reveal_strlit(" minutes");
    reveal_strlit(" minute");
    reveal_strlit(" min");
    reveal_strlit(" hours");
    reveal_strlit(" hour");
    reveal_strlit(" days");
    reveal_strlit(" day");
    let d = decimal(n);
    assert(is_digit(d[0]) && is_digit(d[d.len() - 1]));
    lemma_trimmed_is_same(d);
    assert(signed(d) == Some(n));
    assert forall|unit: Seq<char>|
        unit == " minutes"@ || unit == " minute"@ || unit == " min"@ || unit == " hours"@ || unit
            == " hour"@ || unit == " days"@ || unit == " day"@ implies after_prefix(
        #[trigger] ("in "@ + d + unit),
        "in "@,
    ) == Some(d + unit) && trimmed(d + unit) == d + unit && before_suffix(d + unit, unit) == Some(
        d,
    ) by {
        let s = "in "@ + d + unit;
        assert(s.take(3) == "in "@);
        assert(s.skip(3) == d + unit);
        lemma_trimmed_is_same(d + unit);
        assert((d + unit).skip(d.len() as int) == unit);
        assert((d + unit).take(d.len() as int) == d);
    }
    lemma_minutes_have_no_other_unit(d, " minutes"@);
    lemma_minutes_have_no_other_unit(d, " minute"@);
    lemma_minutes_have_no_other_unit(d, " min"@);
    lemma_other_last(d + " minute"@, " minutes"@);
    lemma_other_last(d + " min"@, " minutes"@);
    lemma_other_last(d + " min"@, " minute"@);
    lemma_other_last(d + " hours"@, " day"@);
    lemma_other_suffix(d + " hours"@, " days"@, 3);
    lemma_other_last(d + " hour"@, " day"@);
    lemma_other_last(d + " hour"@, " days"@);
    lemma_other_last(d + " hour"@, " hours"@);
    lemma_other_last(d + " day"@, " days"@);
}

/// A text does not end with `p` where the two end with different characters.
proof fn lemma_other_last(s: Seq<char>, p: Seq<char>)
    requires
        s.len() > 0,
        p.len() > 0,
        s.last() != p.last(),
    ensures
        before_suffix(s, p) is None,
{
    if ends_with(s, p) {
        assert(s.skip(s.len() - p.len())[p.len() - 1] == p[p.len() - 1]);
    }
}

/// A count of minutes is none of days or hours.
proof fn lemma_minutes_have_no_other_unit(d: Seq<char>, unit: Seq<char>)
    requires
        d.len() > 0,
        unit == " minutes"@ || unit == " minute"@ || unit == " min"@,
    ensures
        before_suffix(d + unit, " days"@) is None,
        before_suffix(d + unit, " day"@) is None,
        before_suffix(d + unit, " hours"@) is None,
        before_suffix(d + unit, " hour"@) is None,
{
    reveal_strlit(" minutes");
    reveal_strlit(" minute");
    reveal_strlit(" min");
    reveal_strlit(" hours");
    reveal_strlit(" hour");
    reveal_strlit(" days");
    reveal_strlit(" day");
    let s = d + unit;
    lemma_other_last(s, " day"@);
    lemma_other_last(s, " hour"@);
    if unit == " minutes"@ {
        lemma_other_suffix(s, " days"@, 3);
        lemma_other_suffix(s, " hours"@, 3);
    } else {
        lemma_other_last(s, " days"@);
        lemma_other_last(s, " hours"@);
    }
}

/// A text does not end with `p` where the two differ some characters before the end.
proof fn lemma_other_suffix(s: Seq<char>, p: Seq<char>, i: int)
    requires
        0 <= i < p.len() <= s.len(),
        s[s.len() - p.len() + i] != p[i],
    ensures
        before_suffix(s, p) is None,
{
    if ends_with(s, p) {
        assert(s.skip(s.len() - p.len())[i] == p[i]);
    }
}

/// What has been read of a length of time: the minutes so far, and the digits of a number
/// whose unit is still to come. Characters other than digits and the units `h` and `m` are
/// passed over. Where a unit has no number that can be held before it, the digits that stand
/// there come out as the fault.
pub open spec fn scanned(s: Seq<char>) -> Result<(int, Seq<char>), Seq<char>>
    decreases s.len(),
{
    if s.len() == 0 {
        Ok((0, Seq::empty()))
    } else {
        match scanned(s.drop_last()) {
            Err(digits) => Err(digits),
            Ok((total, digits)) => if is_digit(s.last()) {
                Ok((total, digits.push(s.last())))
            } else if s.last() == 'h' || s.last() == 'm' {
                let unit: int = if s.last() == 'h' {
                    60
                } else {
                    1
                };
                match signed(digits) {
                    Some(n) => Ok((total + n * unit, Seq::empty())),
                    None => Err(digits),
                }
            } else {
                Ok((total, digits))
            },
        }
    }
}

/// The minutes that a text in lower case stands for, or the digits that are no number; a
/// number without a unit counts minutes.
pub open spec fn minutes_of(s: Seq<char>) -> Result<int, Seq<char>> {
    match scanned(s) {
        Err(digits) => Err(digits),
        Ok((total, digits)) => if digits.len() == 0 {
            Ok(total)
        } else {
            match signed(digits) {
                Some(n) => Ok(total + n),
                None => Err(digits),
            }
        },
    }
}

/// The length of time that a text in lower case names.
pub open spec fn duration_of(s: Seq<char>) -> Result<Duration, Fault> {
    match minutes_of(s) {
        Err(digits) => Err(Fault::BadNumber(signed_fault(digits))),
        Ok(n) => if n == 0 {
            Err(Fault::BadDuration(s))
        } else if n * 60 <= MAX_SPAN_SECS {
            Ok(Duration { secs: (n * 60) as i64 })
        } else {
            Err(Fault::OutOfRange)
        },
    }
}

pub open spec fn duration_result(r: Result<Duration, TimeInputError>) -> Result<Duration, Fault> {
    match r {
        Ok(d) => Ok(d),
        Err(e) => Err(e@),
    }
}

/// The digits that await a unit are digits, and the minutes so far are not negative.
proof fn lemma_scanned(s: Seq<char>)
    ensures
        scanned(s) matches Ok((total, digits)) ==> total >= 0 && all_digits(digits) && digits.len()
            <= s.len(),
    decreases s.len(),
{
    if s.len() > 0 {
        lemma_scanned(s.drop_last());
        if let Ok((total, digits)) = scanned(s.drop_last()) {
            lemma_digits_are_natural(digits);
        }
    }
}

proof fn lemma_digits_are_natural(s: Seq<char>)
    requires
        all_digits(s),
    ensures
        signed(s) matches Some(n) ==> 0 <= n <= i64::MAX,
{
    lemma_digits_value_bounds(s);
    if s.len() > 0 {
        assert(is_digit(s[0]));
    }
}

/// Where a part of a text has no reading, the text has none, for the same fault.
proof fn lemma_scanned_stops(s: Seq<char>, k: int)
    requires
        0 <= k <= s.len(),
        scanned(s.take(k)) is Err,
    ensures
        scanned(s) == scanned(s.take(k)),
    decreases s.len() - k,
{
    if k == s.len() {
        assert(s.take(k) == s);
    } else {
        assert(s.take(k + 1).drop_last() == s.take(k));
        lemma_scanned_stops(s, k + 1);
    }
}

/// The largest count of minutes that is kept; larger ones are too many in any case.
const MINUTES_CAP: u64 = 0x7fff_ffff_ffff_ffff;

/// `kept` stands for the total: it is the total, unless both lie beyond the cap.
spec fn stands_for(kept: u64, total: int) -> bool {
    kept == total || (kept > MINUTES_CAP && total > MINUTES_CAP)
}

/// A total with more minutes, kept up to a little above the cap.
fn more_minutes(kept: u64, n: i64, hours: bool, Ghost(total): Ghost<int>) -> (r: u64)
    requires
        stands_for(kept, total),
        n >= 0,
        total >= 0,
    ensures
        hours ==> stands_for(r, total + n * 60),
        !hours ==> stands_for(r, total + n),
{
    let m: u128 = if hours {
        n as u128 * 60
    } else {
        n as u128
    };
    let sum: u128 = kept as u128 + m;
    if sum > MINUTES_CAP as u128 {
        MINUTES_CAP + 1
    } else {
        sum as u64
    }
}

/// The length of time that a text names, such as `2h`, `30m` or `1h30m`. A bare number
/// counts minutes.
pub fn parse_duration(s: &str) -> (r: Result<Duration, TimeInputError>)
    ensures
        duration_result(r) == duration_of(lower_text(trimmed(s@))),
        r matches Ok(d) ==> d.wf() && d.secs >= 60,
{
    let text = lowercase(trim(s));
    let chars = chars_of(text.as_str());
    let ghost t = text@;
    let mut total: u64 = 0;
    let mut digits = String::new();
    let mut i: usize = 0;
    proof {
        assert(t.take(0) == Seq::<char>::empty());
        assert(digits@ == Seq::<char>::empty());
    }
    while i < chars.len()
        invariant
            i <= chars@.len(),
            chars@ == t,
            t == lower_text(trimmed(s@)),
            scanned(t.take(i as int)) matches Ok((sum, ds)) && stands_for(total, sum) && ds
                == digits@,
        decreases chars.len() - i,
    {
        let c = chars[i];
        let ghost sum = (scanned(t.take(i as int))->Ok_0).0;
        proof {
            assert(t.take(i + 1).drop_last() == t.take(i as int));
            assert(t.take(i + 1).last() == c);
            lemma_scanned(t.take(i as int));
            lemma_digits_are_natural(digits@);
        }
        if is_ascii_digit(c) {
            digits.push(c);
        } else if c == 'h' || c == 'm' {
            match parse_signed(digits.as_str()) {
                Some(n) => {
                    total = more_minutes(total, n, c == 'h', Ghost(sum));
                    digits = String::new();
                    assert(digits@ == Seq::<char>::empty());
                },
                None => {
                    proof {
                        lemma_scanned_stops(t, i + 1);
                    }
                    return Err(TimeInputError::BadNumber(signed_error(digits.as_str())));
                },
            }
        }
        i += 1;
    }
    proof {
        assert(t.take(i as int) == t);
        lemma_scanned(t);
        lemma_digits_are_natural(digits@);
    }
    if !digits.as_str().is_empty() {
        match parse_signed(digits.as_str()) {
            Some(n) => {
                let ghost sum = (scanned(t)->Ok_0).0;
                total = more_minutes(total, n, false, Ghost(sum));
            },
            None => {
                return Err(TimeInputError::BadNumber(signed_error(digits.as_str())));
            },
        }
    }
    if total == 0 {
        return Err(TimeInputError::BadDuration(text));
    }
    if total > MINUTES_CAP {
        return Err(TimeInputError::OutOfRange);
    }
    match Duration::minutes(total as i64) {
        Some(d) => Ok(d),
        None => Err(TimeInputError::OutOfRange),
    }
}

/// `NhMm` stands for `N` hours and `M` minutes, for all numbers that can be held.
pub proof fn law_hours_and_minutes(n: int, m: int)
    requires
        0 <= n <= i64::MAX,
        0 <= m <= i64::MAX,
    ensures
        minutes_of(decimal(n) + "h"@ + decimal(m) + "m"@) == Ok::<int, Seq<char>>(n * 60 + m),
        minutes_of(decimal(n) + "h"@) == Ok::<int, Seq<char>>(n * 60),
        minutes_of(decimal(m) + "m"@) == Ok::<int, Seq<char>>(m),
        minutes_of(decimal(m)) == Ok::<int, Seq<char>>(m),
{
    reveal_strlit("h");
    reveal_strlit("m");
    lemma_decimal_reads_back(n);
    lemma_decimal_reads_back(m);
    let e = Seq::<char>::empty();
    let dn = decimal(n);
    let dm = decimal(m);
    assert(scanned(e) == Ok::<(int, Seq<char>), Seq<char>>((0int, e)));
    lemma_scan_digits(e, dn, 0);
    lemma_scan_digits(e, dm, 0);
    assert(e + dn == dn && e + dm == dm);
    assert((dn + "h"@).drop_last() == dn);
    assert((dm + "m"@).drop_last() == dm);
    assert(dn[0] != '-' && dm[0] != '-') by {
        assert(is_digit(dn[0]) && is_digit(dm[0]));
    }
    assert(dn[0] != '+' && dm[0] != '+') by {
        assert(is_digit(dn[0]) && is_digit(dm[0]));
    }
    assert(scanned(dn + "h"@) == Ok::<(int, Seq<char>), Seq<char>>((n * 60, e)));
    lemma_scan_digits(dn + "h"@, dm, n * 60);
    assert((dn + "h"@ + dm + "m"@).drop_last() == dn + "h"@ + dm);
}

/// Neither the case of its letters nor the white space around it makes a difference to the
/// length of time that a text names, and no length of time is under a minute.
pub proof fn law_duration_ignores_case_and_white_space(
    before: Seq<char>,
    s: Seq<char>,
    after: Seq<char>,
    other: Seq<char>,
)
    requires
        all_white(before),
        all_white(after),
    ensures
        duration_of(lower_text(trimmed(before + s + after))) == duration_of(
            lower_text(trimmed(s)),
        ),
        is_ascii_text(s) && is_ascii_text(other) && ascii_lowered(s) == ascii_lowered(other)
            ==> duration_of(lower_text(trimmed(s))) == duration_of(lower_text(trimmed(other))),
        duration_of(lower_text(trimmed(s))) matches Ok(d) ==> d.secs >= 60 && d.secs % 60 == 0,
{
    law_white_space_around_is_trimmed(before, s, after);
    if is_ascii_text(s) && is_ascii_text(other) && ascii_lowered(s) == ascii_lowered(other) {
        law_case_makes_no_difference(s, other);
    }
    lemma_minutes_are_natural(lower_text(trimmed(s)));
}

proof fn lemma_minutes_are_natural(s: Seq<char>)
    ensures
        minutes_of(s) matches Ok(n) ==> n >= 0,
{
    lemma_scanned(s);
    if let Ok((total, digits)) = scanned(s) {
        lemma_digits_are_natural(digits);
    }
}

/// A text of digits and of the letters `h` and `m`, with a digit in front and one of these at
/// the end, is read as it stands.
proof fn lemma_plain_duration(s: Seq<char>)
    requires
        s.len() > 0,
        forall|i: int|
            0 <= i < s.len() ==> is_digit(#[trigger] s[i]) || s[i] == 'h' || s[i] == 'm',
    ensures
        lower_text(trimmed(s)) == s,
{
    assert(!is_white(s[0]) && !is_white(s[s.len() - 1]));
    lemma_trimmed_is_same(s);
    assert(is_ascii_text(s));
    assert(ascii_lowered(s) =~= s);
}

/// `NhMm` names `N` hours and `M` minutes, and `M` and `Mm` both name `M` minutes, for all
/// numbers that can be held; no minutes at all are refused.
pub proof fn law_hours_and_minutes_are_named(n: int, m: int)
    requires
        0 <= n,
        0 <= m,
        (n * 60 + m) * 60 <= MAX_SPAN_SECS,
    ensures
        n * 60 + m > 0 ==> duration_of(
            lower_text(trimmed(decimal(n) + "h"@ + decimal(m) + "m"@)),
        ) == Ok::<Duration, Fault>(Duration { secs: ((n * 60 + m) * 60) as i64 }),
        n * 60 + m == 0 ==> duration_of(
            lower_text(trimmed(decimal(n) + "h"@ + decimal(m) + "m"@)),
        ) is Err,
        m > 0 ==> duration_of(lower_text(trimmed(decimal(m)))) == Ok::<Duration, Fault>(
            Duration { secs: (m * 60) as i64 },
        ),
        m > 0 ==> duration_of(lower_text(trimmed(decimal(m) + "m"@))) == Ok::<Duration, Fault>(
            Duration { secs: (m * 60) as i64 },
        ),
        m == 0 ==> duration_of(lower_text(trimmed(decimal(m)))) is Err && duration_of(
            lower_text(trimmed(decimal(m) + "m"@)),
        ) is Err,
{
    law_hours_and_minutes(n, m);
    reveal_strlit("h");
    reveal_strlit("m");
    lemma_decimal_reads_back(n);
    lemma_decimal_reads_back(m);
    let dn = decimal(n);
    let dm = decimal(m);
    let all = dn + "h"@ + dm + "m"@;
    assert forall|i: int| 0 <= i < all.len() implies is_digit(#[trigger] all[i]) || all[i] == 'h'
        || all[i] == 'm' by {
        if i < dn.len() {
            assert(all[i] == dn[i]);
        } else if dn.len() < i < dn.len() + 1 + dm.len() {
            assert(all[i] == dm[i - dn.len() - 1]);
        }
    }
    let minutes = dm + "m"@;
    assert forall|i: int| 0 <= i < minutes.len() implies is_digit(#[trigger] minutes[i])
        || minutes[i] == 'h' || minutes[i] == 'm' by {
        if i < dm.len() {
            assert(minutes[i] == dm[i]);
        }
    }
    lemma_plain_duration(all);
    lemma_plain_duration(minutes);
    lemma_plain_duration(dm);
}

/// Digits after a text whose last number has its unit await theirs.
proof fn lemma_scan_digits(s: Seq<char>, d: Seq<char>, total: int)
    requires
        all_digits(d),
        scanned(s) == Ok::<(int, Seq<char>), Seq<char>>((total, Seq::<char>::empty())),
    ensures
        scanned(s + d) == Ok::<(int, Seq<char>), Seq<char>>((total, d)),
    decreases d.len(),
{
    if d.len() == 0 {
        assert(s + d == s);
        assert(d == Seq::<char>::empty());
    } else {
        let front = d.drop_last();
        assert(is_digit(d[d.len() - 1]));
        assert(all_digits(front)) by {
            assert forall|i: int| 0 <= i < front.len() implies #[trigger] is_digit(front[i]) by {
                assert(is_digit(d[i]));
            }
        }
        lemma_scan_digits(s, front, total);
        assert((s + d).drop_last() == s + front);
        assert(front.push(d.last()) == d);
    }
}

/// What an end of a range reads as, or what is said of it.
pub open spec fn end_of(s: Seq<char>) -> Result<TimeOfDay, Seq<char>> {
    match time_read(s, "%H:%M"@) {
        Ok(t) => Ok(TimeOfDay { secs: t.0 as u32, frac: t.1 as u32 }),
        Err(e) => Err(e),
    }
}

/// The range that a text `HH:MM-HH:MM` names.
pub open spec fn time_range_of(s: Seq<char>) -> Result<TimeRange, Fault> {
    let parts = pieces(s, '-');
    if parts.len() != 2 {
        Err(Fault::RangeFormat)
    } else {
        range_between(end_of(parts[0]), end_of(parts[1]))
    }
}

/// The range between two times, where both are there; else what is said of the first that is
/// not.
pub open spec fn range_between(
    start: Result<TimeOfDay, Seq<char>>,
    end: Result<TimeOfDay, Seq<char>>,
) -> Result<TimeRange, Fault> {
    match (start, end) {
        (Ok(start), Ok(end)) => Ok(TimeRange { start, end }),
        (Err(e), _) => Err(Fault::RangeTime(e)),
        (Ok(_), Err(e)) => Err(Fault::RangeTime(e)),
    }
}

pub open spec fn range_result(r: Result<TimeRange, TimeInputError>) -> Result<TimeRange, Fault> {
    match r {
        Ok(t) => Ok(t),
        Err(e) => Err(e@),
    }
}

/// A text of exactly the form `HH:MM-HH:MM`.
pub open spec fn is_plain_range(s: Seq<char>) -> bool {
    s.len() == 11 && hour_minute_at(s, 0) && s[5] == '-' && hour_minute_at(s, 6)
}

/// The two sides of a text of that form.
proof fn lemma_plain_range(s: Seq<char>)
    requires
        is_plain_range(s),
    ensures
        pieces(s, '-') == seq![s.take(5), s.skip(6)],
{
    lemma_find_char(s, '-');
    let f = find_char(s, '-') as int;
    assert(f <= 5) by {
        if f > 5 {
            assert(s[5] != '-');
        }
    }
    assert(f == 5);
    let rest = s.skip(6);
    lemma_find_char(rest, '-');
    let g = find_char(rest, '-') as int;
    assert(g == 5) by {
        if g < 5 {
            assert(rest[g] == '-');
            assert(rest[g] == s[g + 6]);
        }
    }
    reveal_with_fuel(pieces, 2);
    assert(pieces(rest, '-') == seq![rest]);
    assert(pieces(s, '-') == seq![s.take(5)] + pieces(rest, '-'));
}

/// The range of times of day that a text `HH:MM-HH:MM` names.
pub fn parse_time_range(s: &str) -> (r: Result<TimeRange, TimeInputError>)
    ensures
        range_result(r) == time_range_of(s@),
        r matches Ok(t) ==> t.wf() && t.start.frac == 0 && t.end.frac == 0,
        is_plain_range(s@) ==> match (
            as_time(hour_minute_value(s@, 0)),
            as_time(hour_minute_value(s@, 6)),
        ) {
            (Some(start), Some(end)) => r == Ok::<TimeRange, TimeInputError>(
                TimeRange { start, end },
            ),
            _ => r matches Err(TimeInputError::RangeTime(_)),
        },
{
    let parts = split_on(s, '-');
    assert(views(parts@).len() == parts@.len());
    if parts.len() != 2 {
        proof {
            if is_plain_range(s@) {
                lemma_plain_range(s@);
            }
        }
        return Err(TimeInputError::RangeFormat);
    }
    assert(views(parts@)[0] == parts@[0]@ && views(parts@)[1] == parts@[1]@);
    let start = read_time(parts[0], "%H:%M");
    let end = read_time(parts[1], "%H:%M");
    proof {
        if is_plain_range(s@) {
            lemma_plain_range(s@);
            assert(parts@[0]@ == s@.take(5));
            assert(parts@[1]@ == s@.skip(6));
        }
    }
    match (start, end) {
        (Ok(start), Ok(end)) => Ok(TimeRange { start, end }),
        (Err(e), _) => Err(TimeInputError::RangeTime(e)),
        (Ok(_), Err(e)) => Err(TimeInputError::RangeTime(e)),
    }
}

/// `text` writes the time `h:m`, or `h:m:s`, with two digits for each number.
pub open spec fn writes_time(text: Seq<char>, h: int, m: int, s: int) -> bool {
    &&& 0 <= h < 24
    &&& 0 <= m < 60
    &&& 0 <= s < 60
    &&& (text == two_digits(h) + seq![':'] + two_digits(m) && s == 0 || text == two_digits(h)
        + seq![':'] + two_digits(m) + seq![':'] + two_digits(s))
}

/// Two digits stand for their number.
proof fn lemma_two_digits(n: int)
    requires
        0 <= n < 100,
    ensures
        two_digits(n).len() == 2,
        is_digit(two_digits(n)[0]) && is_digit(two_digits(n)[1]),
        digit_value(two_digits(n)[0]) * 10 + digit_value(two_digits(n)[1]) == n,
{
    reveal_with_fuel(decimal, 3);
}

/// A time of two digits for each number is that hour, minute and second.
pub proof fn law_clock_is_read_by_its_digits(text: Seq<char>, h: int, m: int, s: int)
    requires
        writes_time(text, h, m, s),
    ensures
        plain_time(text) == Some(Some((h * 3600 + m * 60 + s, 0int))),
        text.len() > 0,
        is_digit(text[0]),
        trimmed(text) == text,
        trimmed(seq![' '] + text) == text,
{
    lemma_two_digits(h);
    lemma_two_digits(m);
    lemma_two_digits(s);
    let hh = two_digits(h);
    let mm = two_digits(m);
    let ss = two_digits(s);
    assert(text[0] == hh[0] && text[1] == hh[1] && text[2] == ':' && text[3] == mm[0] && text[4]
        == mm[1]);
    if text.len() == 8 {
        assert(text[5] == ':' && text[6] == ss[0] && text[7] == ss[1]);
        assert(hour_minute_second_at(text, 0));
        assert(is_digit(text[7]));
    } else {
        assert(text.len() == 5);
        assert(hour_minute_at(text, 0));
    }
    assert(is_digit(text.last()));
    lemma_trimmed_is_same(text);
    let e = Seq::<char>::empty();
    assert(all_white(seq![' ']) && all_white(e));
    law_white_space_around_is_trimmed(seq![' '], text, e);
    assert(seq![' '] + text + e == seq![' '] + text);
}

/// `tomorrow` and a time mean that time of tomorrow, `today` and a time that time of today,
/// and a time alone the next such time: for every hour, minute and second.
pub proof fn law_day_words_name_their_day(text: Seq<char>, h: int, m: int, s: int)
    requires
        writes_time(text, h, m, s),
    ensures
        ({
            let t = TimeOfDay { secs: (h * 3600 + m * 60 + s) as u32, frac: 0 };
            let tomorrow = "tomorrow "@ + text;
            let today = "today "@ + text;
            &&& leading_in(tomorrow) is None && leading_in(today) is None && leading_in(text) is None
            &&& plain_time(time_part(tomorrow)) == Some(Some((h * 3600 + m * 60 + s, 0int)))
            &&& plain_time(time_part(today)) == Some(Some((h * 3600 + m * 60 + s, 0int)))
            &&& plain_time(time_part(text)) == Some(Some((h * 3600 + m * 60 + s, 0int)))
            &&& forall|second: Option<LocalDateTime>, minute: Option<LocalDateTime>|
                when_of(tomorrow, Some(t), second, minute) == Ok::<When, Fault>(When::Tomorrow(t))
            &&& forall|second: Option<LocalDateTime>, minute: Option<LocalDateTime>|
                when_of(today, Some(t), second, minute) == Ok::<When, Fault>(When::Today(t))
            &&& when_of(text, Some(t), None, None) == Ok::<When, Fault>(When::Next(t))
        }),
{
    reveal_strlit("tomorrow ");
    reveal_strlit("tomorrow");
    reveal_strlit("today ");
    reveal_strlit("today");
    law_clock_is_read_by_its_digits(text, h, m, s);
    let tomorrow = "tomorrow "@ + text;
    let today = "today "@ + text;
    assert(tomorrow.take(8) == "tomorrow"@);
    assert(tomorrow.skip(8) == seq![' '] + text);
    assert(today.take(5) == "today"@);
    assert(today.skip(5) == seq![' '] + text);
    lemma_words_first(tomorrow);
    lemma_words_first(today);
    lemma_digit_first(text);
}

/// What is said of a day and a time that the zone was asked about.
pub open spec fn zone_said(first: Option<Timestamp>, r: Result<Timestamp, Fault>) -> bool {
    match first {
        Some(t) => r == Ok::<Timestamp, Fault>(t),
        None => r == Err::<Timestamp, Fault>(Fault::NoLocalTime),
    }
}

/// A time of today is met on the day that local clocks show now, and a time of tomorrow on the
/// day after that: the zone is asked for just that day and time, and what it answers is meant.
pub proof fn law_today_and_tomorrow_are_met(
    t: TimeOfDay,
    now: Timestamp,
    today: LocalDateTime,
    first: Option<Timestamp>,
    second: Option<Timestamp>,
    r: Result<Timestamp, Fault>,
)
    ensures
        met(When::Today(t), now, today, first, second, r) ==> is_now(now) && if now.secs + 172_800
            <= MAX_SECS {
            is_shown_at(today, now) && is_answer(first, LocalDateTime { day: today.day, time: t })
                && zone_said(first, r)
        } else {
            r == Err::<Timestamp, Fault>(Fault::OutOfRange)
        },
        met(When::Tomorrow(t), now, today, first, second, r) ==> is_now(now) && if now.secs
            + 172_800 <= MAX_SECS {
            is_shown_at(today, now) && is_answer(
                first,
                LocalDateTime { day: (today.day + 1) as i32, time: t },
            ) && zone_said(first, r)
        } else {
            r == Err::<Timestamp, Fault>(Fault::OutOfRange)
        },
{
}

/// A time alone is met on the day that local clocks show now, where that instant is still to
/// come, and on the day after where it is not.
pub proof fn law_time_alone_is_met(
    t: TimeOfDay,
    now: Timestamp,
    today: LocalDateTime,
    first: Option<Timestamp>,
    second: Option<Timestamp>,
    r: Result<Timestamp, Fault>,
)
    requires
        met(When::Next(t), now, today, first, second, r),
        now.secs + 172_800 <= MAX_SECS,
    ensures
        is_now(now),
        is_shown_at(today, now),
        is_answer(first, LocalDateTime { day: today.day, time: t }),
        is_answer(second, LocalDateTime { day: (today.day + 1) as i32, time: t }),
        first matches Some(f) ==> if f.secs > now.secs || (f.secs == now.secs && f.nanos
            > now.nanos) {
            r == Ok::<Timestamp, Fault>(f)
        } else {
            zone_said(second, r)
        },
        first is None ==> r == Err::<Timestamp, Fault>(Fault::NoLocalTime),
{
}

/// A span reaches as many seconds past the present as it has, wherever there is such an instant.
pub proof fn law_span_is_added(d: Duration, now: Timestamp)
    ensures
        MIN_SECS <= now.secs + d.secs <= MAX_SECS ==> (settled(When::After(d), now, None, None)
            matches Ok(t) && t.secs == now.secs + d.secs && t.nanos == now.nanos),
        !(MIN_SECS <= now.secs + d.secs <= MAX_SECS) ==> settled(When::After(d), now, None, None)
            == Err::<Timestamp, Fault>(Fault::OutOfRange),
{
}

/// A count of minutes, hours or days is read with any number in front, white space around it or
/// not; one that is no number is refused, and so is a span that cannot be held.
pub proof fn law_any_count_is_read(d: Seq<char>)
    requires
        d.len() > 0,
        !is_white(d[0]),
        !is_white(d.last()),
    ensures
        ({
            let unit_read = |unit: Seq<char>, secs: int|
                match signed(d) {
                    Some(n) => if -MAX_SPAN_SECS <= n * secs <= MAX_SPAN_SECS {
                        leading_in("in "@ + d + unit) == Some(
                            Ok::<When, Fault>(When::After(Duration { secs: (n * secs) as i64 })),
                        )
                    } else {
                        leading_in("in "@ + d + unit) == Some(
                            Err::<When, Fault>(Fault::OutOfRange),
                        )
                    },
                    None => leading_in("in "@ + d + unit) == Some(
                        Err::<When, Fault>(Fault::BadNumber(signed_fault(d))),
                    ),
                };
            &&& unit_read(" minutes"@, 60)
            &&& unit_read(" hours"@, 3_600)
            &&& unit_read(" days"@, 86_400)
        }),
{
    reveal_strlit("in ");
    reveal_strlit(" minutes");
    reveal_strlit(" hours");
    reveal_strlit(" hour");
    reveal_strlit(" days");
    reveal_strlit(" day");
    lemma_trimmed_is_same(d);
    lemma_count_and_unit(d, " minutes"@);
    lemma_count_and_unit(d, " hours"@);
    lemma_count_and_unit(d, " days"@);
    lemma_minutes_have_no_other_unit(d, " minutes"@);
    lemma_other_last(d + " hours"@, " day"@);
    lemma_other_suffix(d + " hours"@, " days"@, 3);
}

proof fn lemma_count_and_unit(d: Seq<char>, unit: Seq<char>)
    requires
        d.len() > 0,
        !is_white(d[0]),
        unit.len() > 0,
        !is_white(unit.last()),
    ensures
        after_prefix("in "@ + d + unit, "in "@) == Some(d + unit),
        trimmed(d + unit) == d + unit,
        before_suffix(d + unit, unit) == Some(d),
{
    reveal_strlit("in ");
    let s = "in "@ + d + unit;
    assert(s.take(3) == "in "@);
    assert(s.skip(3) == d + unit);
    lemma_trimmed_is_same(d + unit);
    assert((d + unit).skip(d.len() as int) == unit);
    assert((d + unit).take(d.len() as int) == d);
}

/// A length of time is as long as its minutes, where there are any and they can be held; a text
/// of no minutes is refused, and so is one of too many.
pub proof fn law_duration_is_its_minutes(s: Seq<char>)
    ensures
        minutes_of(s) matches Ok(n) ==> if n == 0 {
            duration_of(s) == Err::<Duration, Fault>(Fault::BadDuration(s))
        } else if n * 60 > MAX_SPAN_SECS {
            duration_of(s) == Err::<Duration, Fault>(Fault::OutOfRange)
        } else {
            duration_of(s) matches Ok(d) && d.secs == n * 60
        },
        minutes_of(s) is Err ==> (duration_of(s) matches Err(Fault::BadNumber(_))),
{
    lemma_minutes_are_natural(s);
}

/// The parts of a length of time add up: a number and its unit behind parts that have theirs
/// count for themselves, and so does a number without one.
pub proof fn law_parts_of_a_duration_add_up(a: Seq<char>, n: int)
    requires
        0 <= n <= i64::MAX,
        scanned(a) matches Ok((_, digits)) && digits.len() == 0,
    ensures
        minutes_of(a) matches Ok(before) && {
            &&& minutes_of(a + decimal(n) + seq!['h']) == Ok::<int, Seq<char>>(before + n * 60)
            &&& minutes_of(a + decimal(n) + seq!['m']) == Ok::<int, Seq<char>>(before + n)
            &&& minutes_of(a + decimal(n)) == Ok::<int, Seq<char>>(before + n)
        },
{
    let total = (scanned(a)->Ok_0).0;
    let d = decimal(n);
    lemma_decimal_reads_back(n);
    assert((scanned(a)->Ok_0).1 == Seq::<char>::empty());
    lemma_scan_digits(a, d, total);
    assert(is_digit(d[0]));
    assert((a + d + seq!['h']).drop_last() == a + d);
    assert((a + d + seq!['m']).drop_last() == a + d);
}

/// A character other than a digit and the letters of the units makes no difference, wherever
/// it stands; and a unit without a number in front is refused.
pub proof fn law_other_characters_are_passed_over(a: Seq<char>, c: char, b: Seq<char>)
    requires
        !('0' <= c <= '9'),
        c != 'h',
        c != 'm',
    ensures
        minutes_of(a + seq![c] + b) == minutes_of(a + b),
        minutes_of(seq!['h'] + b) is Err,
        minutes_of(seq!['m'] + b) is Err,
{
    lemma_passed_over(a, c, b);
    let e = Seq::<char>::empty();
    assert(seq!['h'].drop_last() == e && seq!['m'].drop_last() == e);
    assert(scanned(e) == Ok::<(int, Seq<char>), Seq<char>>((0int, e)));
    assert(signed(e) is None);
    assert((seq!['h'] + b).take(1) == seq!['h']);
    assert((seq!['m'] + b).take(1) == seq!['m']);
    assert(scanned(seq!['h']) is Err);
    assert(scanned(seq!['m']) is Err);
    lemma_scanned_stops(seq!['h'] + b, 1);
    lemma_scanned_stops(seq!['m'] + b, 1);
}

proof fn lemma_passed_over(a: Seq<char>, c: char, b: Seq<char>)
    requires
        !('0' <= c <= '9'),
        c != 'h',
        c != 'm',
    ensures
        scanned(a + seq![c] + b) == scanned(a + b),
    decreases b.len(),
{
    let s = a + seq![c] + b;
    if b.len() == 0 {
        assert(s.drop_last() == a);
        assert(a + b == a);
        assert(s.last() == c);
    } else {
        lemma_passed_over(a, c, b.drop_last());
        assert(s.drop_last() == a + seq![c] + b.drop_last());
        assert((a + b).drop_last() == a + b.drop_last());
        assert(s.last() == b.last() && (a + b).last() == b.last());
    }
}

/// A range goes from what stands before its hyphen to what stands after it; where one of the
/// two is no time, that is said of the first that is none. Text with another number of hyphens
/// is no range.
pub proof fn law_range_goes_from_first_to_second(a: Seq<char>, b: Seq<char>, s: Seq<char>)
    requires
        !has_char(a, '-'),
        !has_char(b, '-'),
    ensures
        ({
            let r = time_range_of(a + seq!['-'] + b);
            match (time_read(a, "%H:%M"@), time_read(b, "%H:%M"@)) {
                (Ok(t), Ok(u)) => r matches Ok(range) && range.start.secs == t.0 as u32
                    && range.start.frac == t.1 as u32 && range.end.secs == u.0 as u32
                    && range.end.frac == u.1 as u32,
                (Err(e), _) => r == Err::<TimeRange, Fault>(Fault::RangeTime(e)),
                (Ok(_), Err(e)) => r == Err::<TimeRange, Fault>(Fault::RangeTime(e)),
            }
        }),
        pieces(s, '-').len() != 2 ==> time_range_of(s) == Err::<TimeRange, Fault>(
            Fault::RangeFormat,
        ),
{
    let parts = seq![a, b];
    assert(parts.drop_last() == seq![a]);
    assert(joined(seq![a], seq!['-']) == a);
    assert(joined(parts, seq!['-']) == a + seq!['-'] + b);
    lemma_pieces_of_joined(parts, '-');
}

/// What a user is told of a time that cannot be read names the text that cannot be, where the
/// text is all there is to say.
pub proof fn law_messages_name_the_text(s: Seq<char>)
    ensures
        Fault::BadDuration(s).message() == "Invalid duration: "@ + s,
        Fault::BadNumber(s).message() == s,
        Fault::RangeTime(s).message() == s,
        has_text(Fault::Unsupported(s).message(), quoted(s)),
        has_text(Fault::BadTime(s).message(), quoted(s)),
{
    let q = quoted(s);
    law_text_within(
        "Could not parse datetime: "@,
        q,
        ". Supported forms: 'YYYY-MM-DD HH:MM[:SS]', 'today HH:MM[:SS]', 'tomorrow HH:MM[:SS]', 'in N (minutes|hours|days)', 'HH:MM[:SS]'."@,
        q,
    );
    law_text_within("Invalid time "@, q, ", expected HH:MM or HH:MM:SS"@, q);
}

/// A time of day is read with its seconds where it has them, and else without.
pub proof fn law_time_is_read_with_seconds_first(s: Seq<char>)
    ensures
        time_read(s, "%H:%M:%S"@) matches Ok(t) ==> hms_of(s) == Some(
            TimeOfDay { secs: t.0 as u32, frac: t.1 as u32 },
        ),
        time_read(s, "%H:%M:%S"@) is Err ==> match time_read(s, "%H:%M"@) {
            Ok(t) => hms_of(s) == Some(TimeOfDay { secs: t.0 as u32, frac: t.1 as u32 }),
            Err(_) => hms_of(s) is None,
        },
{
}

/// A text is tried as a span from now, as a time of today and of tomorrow, as a day and a time
/// with seconds and without, and as a time alone, in this order; a text that is none of these is
/// refused as such.
pub proof fn law_forms_are_tried_in_turn(s: Seq<char>)
    ensures
        leading_in(s) matches Some(r) ==> reading(s) == r,
        leading_in(s) is None && starts_with(s, "today"@) ==> reading(s) == match hms_of(
            trimmed(s.skip(5)),
        ) {
            Some(t) => Ok::<When, Fault>(When::Today(t)),
            None => Err::<When, Fault>(Fault::BadTime(trimmed(s.skip(5)))),
        },
        leading_in(s) is None && starts_with(s, "tomorrow"@) ==> reading(s) == match hms_of(
            trimmed(s.skip(8)),
        ) {
            Some(t) => Ok::<When, Fault>(When::Tomorrow(t)),
            None => Err::<When, Fault>(Fault::BadTime(trimmed(s.skip(8)))),
        },
        leading_in(s) is None && !starts_with(s, "today"@) && !starts_with(s, "tomorrow"@)
            ==> match (
            datetime_of(s, "%Y-%m-%d %H:%M:%S"@),
            datetime_of(s, "%Y-%m-%d %H:%M"@),
            hms_of(s),
        ) {
            (Some(d), _, _) => reading(s) == Ok::<When, Fault>(When::At(d)),
            (None, Some(d), _) => reading(s) == Ok::<When, Fault>(When::At(d)),
            (None, None, Some(t)) => reading(s) == Ok::<When, Fault>(When::Next(t)),
            (None, None, None) => reading(s) == Err::<When, Fault>(Fault::Unsupported(s)),
        },
{
    lemma_words_first(s);
}

/// A text that does not start with `in` and a space is no span, and neither is one that names
/// no minutes, hours or days.
pub proof fn law_spans_need_their_words(s: Seq<char>, rest: Seq<char>)
    ensures
        !starts_with(s, "in "@) ==> leading_in(s) is None,
        ({
            let t = trimmed(rest);
            !ends_with(t, " minutes"@) && !ends_with(t, " minute"@) && !ends_with(t, " min"@)
                && !ends_with(t, " hours"@) && !ends_with(t, " hour"@) && !ends_with(t, " days"@)
                && !ends_with(t, " day"@)
        }) ==> relative_of(rest) is None,
        starts_with(s, "in "@) ==> leading_in(s) == relative_of(s.skip(3)),
{
    reveal_strlit("in ");
}

/// A count is read with a singular unit as with a plural one, and minutes may be shortened, for
/// every number.
pub proof fn law_units_may_be_singular(d: Seq<char>)
    requires
        d.len() > 0,
        !is_white(d[0]),
        !is_white(d.last()),
    ensures
        leading_in("in "@ + d + " minute"@) == leading_in("in "@ + d + " minutes"@),
        leading_in("in "@ + d + " min"@) == leading_in("in "@ + d + " minutes"@),
        leading_in("in "@ + d + " hour"@) == leading_in("in "@ + d + " hours"@),
        leading_in("in "@ + d + " day"@) == leading_in("in "@ + d + " days"@),
{
    reveal_strlit(" minutes");
    reveal_strlit(" minute");
    reveal_strlit(" min");
    reveal_strlit(" hours");
    reveal_strlit(" hour");
    reveal_strlit(" days");
    reveal_strlit(" day");
    lemma_count_and_unit(d, " minutes"@);
    lemma_count_and_unit(d, " minute"@);
    lemma_count_and_unit(d, " min"@);
    lemma_count_and_unit(d, " hours"@);
    lemma_count_and_unit(d, " hour"@);
    lemma_count_and_unit(d, " days"@);
    lemma_count_and_unit(d, " day"@);
    lemma_minutes_have_no_other_unit(d, " minutes"@);
    lemma_minutes_have_no_other_unit(d, " minute"@);
    lemma_minutes_have_no_other_unit(d, " min"@);
    lemma_other_last(d + " minute"@, " minutes"@);
    lemma_other_last(d + " min"@, " minutes"@);
    lemma_other_last(d + " min"@, " minute"@);
    lemma_other_last(d + " hours"@, " day"@);
    lemma_other_suffix(d + " hours"@, " days"@, 3);
    lemma_other_last(d + " hour"@, " day"@);
    lemma_other_last(d + " hour"@, " days"@);
    lemma_other_last(d + " hour"@, " hours"@);
    lemma_other_last(d + " day"@, " days"@);
}

/// What a user is told where there is no text to name.
pub proof fn law_other_messages()
    ensures
        Fault::OutOfRange.message() == "Time out of range"@,
        Fault::NoLocalTime.message() == "Invalid local datetime"@,
        Fault::RangeFormat.message() == "Invalid time range format, expected 'HH:MM-HH:MM'"@,
{
}

/// Whatever comes of `tomorrow` and a time, it is what the local time zone answers when it is
/// asked for that time on the day after the one that local clocks show now; and of `today` and a
/// time, for that time on the very day. Upper case and white space around make no difference.
pub proof fn law_day_words_end_to_end(
    s: &str,
    r: Result<Timestamp, TimeInputError>,
    text: Seq<char>,
    h: int,
    m: int,
    sec: int,
)
    requires
        writes_time(text, h, m, sec),
        call_ensures(parse_datetime, (s,), r),
    ensures
        ({
            let t = TimeOfDay { secs: (h * 3600 + m * 60 + sec) as u32, frac: 0 };
            &&& lower_text(trimmed(s@)) == "tomorrow "@ + text ==> is_on_day(t, 1, instant_result(r))
            &&& lower_text(trimmed(s@)) == "today "@ + text ==> is_on_day(t, 0, instant_result(r))
        }),
{
    let t = TimeOfDay { secs: (h * 3600 + m * 60 + sec) as u32, frac: 0 };
    law_day_words_name_their_day(text, h, m, sec);
    let said = lower_text(trimmed(s@));
    let tomorrow = "tomorrow "@ + text;
    let today = "today "@ + text;
    let v = Some(Some((h * 3600 + m * 60 + sec, 0int)));
    if said == tomorrow {
        assert(plain_time(time_part(said)) == v);
        assert(reading(said) == when_of(said, Some(t), None, None));
        assert(reading(said) == Ok::<When, Fault>(When::Tomorrow(t)));
        lemma_met_on_day(When::Tomorrow(t), t, 1, instant_result(r));
    }
    if said == today {
        assert(plain_time(time_part(said)) == v);
        assert(reading(said) == when_of(said, Some(t), None, None));
        assert(reading(said) == Ok::<When, Fault>(When::Today(t)));
        lemma_met_on_day(When::Today(t), t, 0, instant_result(r));
    }
}

/// `first` is what the zone answered for a time so many days after the one that local clocks
/// were found to show, and `r` is that answer; or the clock is too late for any of that.
pub open spec fn asked_for(
    t: TimeOfDay,
    days: int,
    now: Timestamp,
    shown: LocalDateTime,
    first: Option<Timestamp>,
    r: Result<Timestamp, Fault>,
) -> bool {
    is_now(now) && if now.secs + 172_800 <= MAX_SECS {
        is_shown_at(shown, now) && is_answer(
            first,
            LocalDateTime { day: (shown.day + days) as i32, time: t },
        ) && zone_said(first, r)
    } else {
        r == Err::<Timestamp, Fault>(Fault::OutOfRange)
    }
}

/// `r` is what comes of asking for a time so many days after the one that local clocks show.
pub open spec fn is_on_day(t: TimeOfDay, days: int, r: Result<Timestamp, Fault>) -> bool {
    exists|now: Timestamp, shown: LocalDateTime, first: Option<Timestamp>| #[trigger]
        asked_for(t, days, now, shown, first, r)
}

proof fn lemma_met_on_day(w: When, t: TimeOfDay, days: int, r: Result<Timestamp, Fault>)
    requires
        met_now(w, r),
        w == When::Today(t) && days == 0 || w == When::Tomorrow(t) && days == 1,
    ensures
        is_on_day(t, days, r),
{
    let (now, today, first, second) = choose|
        now: Timestamp,
        today: LocalDateTime,
        first: Option<Timestamp>,
        second: Option<Timestamp>,
    | #[trigger]
        met(w, now, today, first, second, r);
    law_today_and_tomorrow_are_met(t, now, today, first, second, r);
    assert(asked_for(t, days, now, today, first, r));
}

/// Whatever comes of `N` hours and `M` minutes as a length of time, in either case of the
/// letters and with white space around, it is that long.
pub proof fn law_durations_end_to_end(s: &str, r: Result<Duration, TimeInputError>, n: int, m: int)
    requires
        0 <= n,
        0 <= m,
        0 < n * 60 + m,
        (n * 60 + m) * 60 <= MAX_SPAN_SECS,
        lower_text(trimmed(s@)) == decimal(n) + "h"@ + decimal(m) + "m"@,
        call_ensures(parse_duration, (s,), r),
    ensures
        r matches Ok(d) && d.secs == (n * 60 + m) * 60,
{
    law_hours_and_minutes(n, m);
    assert(duration_result(r) == duration_of(lower_text(trimmed(s@))));
}

} // verus!

//! When a cron expression would fire next.
use crate::job::TimeRange;
use crate::moment::{
    civil_text, clock_text, hour_minute_second, hour_minute_second_text, is_now, minutes_between,
    minutes_from, utc_now, LocalDateTime, Pattern, TimeOfDay, Timestamp,
};
use crate::number::{decimal, decimal_text, signed_text};
use crate::text::{quote, quoted, split_whitespace, string_views, views, words};
use crate::time_input::{parse_time_range, time_range_of, Fault, TimeInputError};
use chrono::{Datelike, Timelike};
use vstd::prelude::*;

verus! {

/// A firing: the instant, and what local clocks show then.
#[derive(Clone, Copy, Debug, PartialEq, Eq, Structural)]
pub struct Run {
    pub instant: Timestamp,
    pub local: LocalDateTime,
}

impl Run {
    pub open spec fn wf(self) -> bool {
        self.local.may_show(self.instant)
    }
}

/// `cron::Schedule::from_str`: what is wrong with an expression, where it is refused.
pub uninterp spec fn cron_fault(expr: Seq<char>) -> Option<Seq<char>>;

/// `cron::Schedule::includes`, of the schedule of an expression: whether it fires on a day,
/// so many seconds after midnight.
pub uninterp spec fn cron_fires(expr: Seq<char>, day: int, secs: int) -> bool;

/// `cron::Schedule::from_str`, and `Schedule::includes`: whether an expression of six or seven
/// fields fires on a day and at a time of it, or the text of the error where it is refused.
#[verifier::external_body]
fn schedule_includes(expr: &str, d: LocalDateTime) -> (r: Result<bool, String>)
    requires
        d.wf(),
    ensures
        (match r {
            Ok(_) => None,
            Err(e) => Some(e@),
        }) == cron_fault(expr@),
        r matches Ok(fires) ==> fires == cron_fires(expr@, d.day as int, d.time.secs as int),
{
    let schedule: cron::Schedule = expr.parse().map_err(|e: cron::error::Error| e.to_string())?;
    let date = chrono::NaiveDate::from_num_days_from_ce_opt(d.day).unwrap();
    let time = chrono::NaiveTime::from_num_seconds_from_midnight_opt(d.time.secs, 0).unwrap();
    Ok(schedule.includes(date.and_time(time).and_utc()))
}

/// Firings of an expression, no more than a number of them.
pub open spec fn are_runs_of(runs: Seq<Run>, expr: Seq<char>, limit: int) -> bool {
    &&& runs.len() <= limit
    &&& forall|i: int|
        0 <= i < runs.len() ==> (#[trigger] runs[i]).wf() && runs[i].instant.nanos == 0
            && cron_fires(expr, runs[i].local.day as int, runs[i].local.time.secs as int)
}

/// `cron::Schedule::from_str`, and `Schedule::upcoming` with `Local`: the next firings of an
/// expression of six or seven fields, or the text of the error where it is refused. Each is a
/// day and a second that the expression includes. That none is left out, and in which order
/// they come where clocks are set back, is left open: it depends on the present and on the
/// time zone. The call panics where the machine's time zone data cannot be used.
#[verifier::external_body]
pub fn upcoming_runs(expr: &str, limit: usize) -> (r: Result<Vec<Run>, String>)
    ensures
        (match r {
            Ok(_) => None,
            Err(e) => Some(e@),
        }) == cron_fault(expr@),
        r matches Ok(runs) ==> runs@.len() <= limit,
        r matches Ok(runs) ==> forall|i: int|
            0 <= i < runs@.len() ==> (#[trigger] runs@[i]).wf() && runs@[i].instant.nanos == 0
                && cron_fires(
                expr@,
                runs@[i].local.day as int,
                runs@[i].local.time.secs as int,
            ),
{
    let schedule: cron::Schedule = expr.parse().map_err(|e: cron::error::Error| e.to_string())?;
    let upcoming = schedule.upcoming(chrono::Local).take(limit);
    let runs = upcoming.map(|t| Run {
        instant: Timestamp { secs: t.timestamp(), nanos: t.timestamp_subsec_nanos() },
        local: LocalDateTime {
            day: t.num_days_from_ce(),
            time: TimeOfDay { secs: t.num_seconds_from_midnight(), frac: t.nanosecond() },
        },
    });
    Ok(runs.collect())
}

/// `found` is what the `cron` crate gave when it was asked for the next firings of an
/// expression, up to `limit` of them.
pub open spec fn are_found(found: Vec<Run>, expr: &str, limit: usize) -> bool {
    call_ensures(upcoming_runs, (expr, limit), Ok::<Vec<Run>, String>(found))
}

/// How long from now, in words.
pub open spec fn duration_text(minutes: int) -> Seq<char> {
    if minutes < 60 {
        "in "@ + decimal(minutes) + " min"@
    } else if minutes < 1440 {
        if minutes % 60 == 0 {
            "in "@ + decimal(minutes / 60) + "h"@
        } else {
            "in "@ + decimal(minutes / 60) + "h "@ + decimal(minutes % 60) + "m"@
        }
    } else {
        "in "@ + decimal(minutes / 1440) + "d "@ + decimal(minutes % 1440 / 60) + "h"@
    }
}

/// How long from now, in words, given in whole minutes.
pub fn format_duration(total_mins: i64) -> (r: String)
    ensures
        r@ == duration_text(total_mins as int),
{
    let mut r = "in ".to_owned();
    if total_mins < 60 {
        r.append(signed_text(total_mins).as_str());
        r.append(" min");
    } else if total_mins < 60 * 24 {
        let hours = total_mins / 60;
        let mins = total_mins % 60;
        r.append(signed_text(hours).as_str());
        if mins == 0 {
            r.append("h");
        } else {
            r.append("h ");
            r.append(signed_text(mins).as_str());
            r.append("m");
        }
    } else {
        let days = total_mins / (60 * 24);
        let hours = (total_mins % (60 * 24)) / 60;
        r.append(signed_text(days).as_str());
        r.append("d ");
        r.append(signed_text(hours).as_str());
        r.append("h");
    }
    r
}

/// Whether a firing is held up by a range that it is to keep out of.
pub open spec fn is_held_up(run: Run, constraint: Option<TimeRange>) -> bool {
    constraint matches Some(range) && range.spec_contains(run.local.time.spec_to_minute())
}

/// The first `count` of the firings that nothing holds up.
pub open spec fn shown_runs(runs: Seq<Run>, constraint: Option<TimeRange>, count: int) -> Seq<Run>
    decreases runs.len(),
{
    if runs.len() == 0 {
        Seq::empty()
    } else {
        let before = shown_runs(runs.drop_last(), constraint, count);
        if before.len() < count && !is_held_up(runs.last(), constraint) {
            before.push(runs.last())
        } else {
            before
        }
    }
}

/// What to say of a firing.
pub open spec fn run_line(run: Run, now: Timestamp) -> Seq<char> {
    "  "@ + civil_text(run.local.civil_secs(), run.local.time.frac as int, Pattern::Weekday.spec_format())
        + "  ("@ + duration_text(
        minutes_between(run.instant, now),
    ) + ")"@
}

/// What to say first: the expression, and the range to keep out of.
pub open spec fn preview_head(expr: Seq<char>, constraint: Option<TimeRange>) -> Seq<Seq<char>> {
    match constraint {
        Some(range) => seq![
            "Cron: "@ + expr,
            "Not during: "@ + hour_minute_second_text(range.start.secs as int) + "-"@
                + hour_minute_second_text(range.end.secs as int),
            Seq::empty(),
        ],
        None => seq!["Cron: "@ + expr, Seq::empty()],
    }
}

/// What to say of the next firings of an expression, one line each.
pub open spec fn preview_lines(
    expr: Seq<char>,
    constraint: Option<TimeRange>,
    runs: Seq<Run>,
    now: Timestamp,
    count: int,
) -> Seq<Seq<char>> {
    let shown = shown_runs(runs, constraint, count);
    let lines = if shown.len() == 0 {
        seq!["  (no runs within the next "@ + decimal(count * 3) + " candidates)"@]
    } else {
        shown.map_values(|run: Run| run_line(run, now))
    };
    preview_head(expr, constraint) + lines
}

/// What to say of the next firings of an expression, given candidates for them.
pub fn preview(
    cron_expr: &str,
    constraint: Option<TimeRange>,
    runs: &Vec<Run>,
    now: Timestamp,
    count: usize,
) -> (r: Vec<String>)
    requires
        constraint matches Some(range) ==> range.wf() && range.start.frac == 0 && range.end.frac
            == 0,
        forall|i: int| 0 <= i < runs@.len() ==> (#[trigger] runs@[i]).wf(),
        now.wf(),
        count * 3 <= usize::MAX,
    ensures
        string_views(r@) == preview_lines(cron_expr@, constraint, runs@, now, count as int),
{
    let mut r: Vec<String> = Vec::new();
    let mut head = "Cron: ".to_owned();
    head.append(cron_expr);
    r.push(head);
    if let Some(range) = constraint {
        let mut line = "Not during: ".to_owned();
        line.append(hour_minute_second(range.start).as_str());
        line.append("-");
        line.append(hour_minute_second(range.end).as_str());
        r.push(line);
    }
    let blank = String::new();
    r.push(blank);
    let ghost first = preview_head(cron_expr@, constraint);
    let ghost write = |run: Run| run_line(run, now);
    proof {
        assert(blank@ == Seq::<char>::empty());
        assert(string_views(r@) == first);
        assert(runs@.take(0) == Seq::<Run>::empty());
    }
    let mut shown: usize = 0;
    let mut i: usize = 0;
    assert(string_views(r@) == first + shown_runs(runs@.take(0), constraint, count as int).map_values(
        write,
    ));
    while i < runs.len()
        invariant
            i <= runs@.len(),
            shown <= count,
            write == (|run: Run| run_line(run, now)),
            shown == shown_runs(runs@.take(i as int), constraint, count as int).len(),
            string_views(r@) == first + shown_runs(
                runs@.take(i as int),
                constraint,
                count as int,
            ).map_values(write),
            forall|i: int| 0 <= i < runs@.len() ==> (#[trigger] runs@[i]).wf(),
            now.wf(),
        decreases runs.len() - i,
    {
        let run = runs[i];
        let ghost so_far = shown_runs(runs@.take(i as int), constraint, count as int);
        let held_up = match constraint {
            Some(range) => range.contains(run.local.time.to_minute()),
            None => false,
        };
        proof {
            assert(runs@.take(i + 1).drop_last() == runs@.take(i as int));
            assert(runs@.take(i + 1).last() == run);
        }
        if shown < count && !held_up {
            let mut line = "  ".to_owned();
            line.append(clock_text(run.local, Pattern::Weekday).as_str());
            line.append("  (");
            line.append(format_duration(minutes_from(now, run.instant)).as_str());
            line.append(")");
            let ghost before = string_views(r@);
            r.push(line);
            shown += 1;
            proof {
                assert(line@ == run_line(run, now));
                assert(string_views(r@) == before.push(line@));
                assert(so_far.push(run).map_values(write) == so_far.map_values(write).push(
                    run_line(run, now),
                ));
                assert(before.push(line@) == first + so_far.push(run).map_values(write));
            }
        }
        i += 1;
    }
    assert(runs@.take(i as int) == runs@);
    if shown == 0 {
        let mut line = "  (no runs within the next ".to_owned();
        line.append(decimal_text((count * 3) as u64).as_str());
        line.append(" candidates)");
        let ghost before = string_views(r@);
        r.push(line);
        proof {
            assert(string_views(r@) == before.push(line@));
            assert(before == first);
            assert(first.push(line@) == first + seq![line@]);
        }
    }
    r
}

/// An expression as the `cron` crate reads it, with a field for the seconds: one of five
/// fields fires at the start of the minute.
pub open spec fn with_seconds(expr: Seq<char>) -> Seq<char> {
    if words(expr).len() == 5 {
        "0 "@ + expr
    } else {
        expr
    }
}

/// Why there is no preview.
#[derive(Debug)]
pub enum PreviewError {
    /// The range to keep out of cannot be read.
    Time(TimeInputError),
    /// The expression is refused; this is said about it.
    Cron(String),
}

#[verifier::ext_equal]
pub enum PreviewFault {
    Time(Fault),
    Cron(Seq<char>),
}

impl View for PreviewError {
    type V = PreviewFault;

    open spec fn view(&self) -> PreviewFault {
        match *self {
            PreviewError::Time(e) => PreviewFault::Time(e@),
            PreviewError::Cron(t) => PreviewFault::Cron(t@),
        }
    }
}

/// The range to keep out of, where one is given.
pub open spec fn constraint_of(not_during: Option<Seq<char>>) -> Result<Option<TimeRange>, Fault> {
    match not_during {
        None => Ok(None),
        Some(s) => match time_range_of(s) {
            Ok(range) => Ok(Some(range)),
            Err(f) => Err(f),
        },
    }
}

/// `lines` tells the next firings of an expression: the `cron` crate was asked for three times
/// as many as are to be shown, and `lines` is what follows from those that it gave and from
/// what the clock showed.
pub open spec fn is_preview(
    lines: Seq<Seq<char>>,
    expr: Seq<char>,
    constraint: Option<TimeRange>,
    count: int,
) -> bool {
    exists|full: &str, found: Vec<Run>, now: Timestamp|
        full@ == with_seconds(expr) && #[trigger] is_now(now) && #[trigger] are_found(
            found,
            full,
            (count * 3) as usize,
        ) && lines == preview_lines(expr, constraint, found@, now, count)
}

/// An expression as the `cron` crate reads it, with a field for the seconds.
fn full_expression(cron_expr: &str) -> (r: String)
    ensures
        r@ == with_seconds(cron_expr@),
{
    let fields = split_whitespace(cron_expr);
    assert(views(fields@).len() == fields@.len());
    let mut full = String::new();
    if fields.len() == 5 {
        full.append("0 ");
    }
    full.append(cron_expr);
    assert(full@ == with_seconds(cron_expr@));
    full
}

/// What is said of an expression that is refused.
pub open spec fn refusal(expr: Seq<char>, fault: Seq<char>) -> PreviewFault {
    PreviewFault::Cron("Invalid cron expression "@ + quoted(expr) + ": "@ + fault)
}

fn refused(cron_expr: &str, fault: &str) -> (r: PreviewError)
    ensures
        r@ == refusal(cron_expr@, fault@),
{
    let mut e = "Invalid cron expression ".to_owned();
    e.append(quote(cron_expr).as_str());
    e.append(": ");
    e.append(fault);
    PreviewError::Cron(e)
}

/// Whether an expression fires when local clocks show a day and a time.
pub fn fires_at(cron_expr: &str, d: LocalDateTime) -> (r: Result<bool, PreviewError>)
    requires
        d.wf(),
    ensures
        match cron_fault(with_seconds(cron_expr@)) {
            Some(fault) => r matches Err(e) && e@ == refusal(cron_expr@, fault),
            None => r == Ok::<bool, PreviewError>(
                cron_fires(with_seconds(cron_expr@), d.day as int, d.time.secs as int),
            ),
        },
{
    let full = full_expression(cron_expr);
    match schedule_includes(full.as_str(), d) {
        Ok(fires) => Ok(fires),
        Err(fault) => Err(refused(cron_expr, fault.as_str())),
    }
}

/// What to say of the next firings of an expression, up to `count` of them.
pub fn cmd_preview(cron_expr: &str, count: usize, not_during: Option<&str>) -> (r: Result<
    Vec<String>,
    PreviewError,
>)
    requires
        count * 3 <= usize::MAX,
    ensures
        match constraint_of(
            match not_during {
                Some(s) => Some(s@),
                None => None,
            },
        ) {
            Err(f) => r matches Err(e) && e@ == PreviewFault::Time(f),
            Ok(constraint) => match cron_fault(with_seconds(cron_expr@)) {
                Some(fault) => r matches Err(e) && e@ == refusal(cron_expr@, fault),
                None => r matches Ok(lines) && is_preview(
                    string_views(lines@),
                    cron_expr@,
                    constraint,
                    count as int,
                ),
            },
        },
{
    let constraint = match not_during {
        Some(s) => match parse_time_range(s) {
            Ok(range) => Some(range),
            Err(e) => {
                return Err(PreviewError::Time(e));
            },
        },
        None => None,
    };
    let full = full_expression(cron_expr);
    let now = utc_now();
    let expr = full.as_str();
    match upcoming_runs(expr, count * 3) {
        Ok(runs) => {
            let lines = preview(cron_expr, constraint, &runs, now, count);
            assert(is_now(now) && are_found(runs, expr, (count * 3) as usize));
            Ok(lines)
        },
        Err(fault) => Err(refused(cron_expr, fault.as_str())),
    }
}

/// All that a preview tells of are firings of the expression, taken from no more candidates
/// than three times as many as are to be shown.
pub proof fn law_preview_tells_of_firings(
    lines: Seq<Seq<char>>,
    expr: Seq<char>,
    constraint: Option<TimeRange>,
    count: int,
)
    requires
        is_preview(lines, expr, constraint, count),
        0 <= count * 3 <= usize::MAX,
    ensures
        exists|runs: Seq<Run>, now: Timestamp|
            is_now(now) && are_runs_of(runs, with_seconds(expr), count * 3) && lines
                == #[trigger] preview_lines(expr, constraint, runs, now, count),
{
    let (full, found, now) = choose|full: &str, found: Vec<Run>, now: Timestamp|
        full@ == with_seconds(expr) && #[trigger] is_now(now) && #[trigger] are_found(
            found,
            full,
            (count * 3) as usize,
        ) && lines == preview_lines(expr, constraint, found@, now, count);
    assert(are_runs_of(found@, full@, count * 3));
    assert(lines == preview_lines(expr, constraint, found@, now, count));
}

/// No firing that is shown lies in the range to keep out of, and no more are shown than were
/// asked for; all of them are candidates.
pub proof fn law_shown_runs_keep_out(runs: Seq<Run>, constraint: Option<TimeRange>, count: int)
    requires
        count >= 0,
    ensures
        shown_runs(runs, constraint, count).len() <= count,
        forall|i: int|
            0 <= i < shown_runs(runs, constraint, count).len() ==> !is_held_up(
                #[trigger] shown_runs(runs, constraint, count)[i],
                constraint,
            ) && runs.contains(shown_runs(runs, constraint, count)[i]),
    decreases runs.len(),
{
    if runs.len() > 0 {
        let front = runs.drop_last();
        law_shown_runs_keep_out(front, constraint, count);
        let f = shown_runs(front, constraint, count);
        let s = shown_runs(runs, constraint, count);
        assert forall|i: int| 0 <= i < s.len() implies !is_held_up(#[trigger] s[i], constraint)
            && runs.contains(s[i]) by {
            if i < f.len() {
                assert(s[i] == f[i]);
                let k = choose|k: int| 0 <= k < front.len() && front[k] == f[i];
                assert(runs[k] == s[i]);
            } else {
                assert(runs[runs.len() - 1] == s[i]);
            }
        }
    }
}

/// How long from now is told in minutes under an hour, in hours and minutes under a day, without
/// minutes where there are none, and in days and hours from then on.
pub proof fn law_spans_are_told(d: int, h: int, m: int)
    requires
        0 <= d,
        0 <= h < 24,
        0 <= m < 60,
    ensures
        duration_text(m) == "in "@ + decimal(m) + " min"@,
        h > 0 && m > 0 ==> duration_text(h * 60 + m) == "in "@ + decimal(h) + "h "@ + decimal(m)
            + "m"@,
        h > 0 ==> duration_text(h * 60) == "in "@ + decimal(h) + "h"@,
        d > 0 ==> duration_text(d * 1440 + h * 60 + m) == "in "@ + decimal(d) + "d "@ + decimal(h)
            + "h"@,
        m > 0 ==> duration_text(-m) == "in "@ + decimal(-m) + " min"@,
{
    let t = d * 1440 + h * 60 + m;
    assert(t / 1440 == d);
    assert(t % 1440 == h * 60 + m);
    assert((h * 60 + m) / 60 == h);
    assert((h * 60 + m) % 60 == m);
    assert((h * 60) % 60 == 0);
    assert((h * 60) / 60 == h);
}

/// An expression of five fields is read with a zero for the seconds in front; others are read
/// as they are.
pub proof fn law_five_fields_fire_at_second_zero(expr: Seq<char>)
    ensures
        words(expr).len() == 5 ==> with_seconds(expr) == seq!['0', ' '] + expr,
        words(expr).len() != 5 ==> with_seconds(expr) == expr,
{
    reveal_strlit("0 ");
    assert("0 "@ == seq!['0', ' ']);
}

/// The firings that are shown are the first of those that nothing holds up, as many as were
/// asked for and there are.
pub proof fn law_first_free_firings_are_shown(
    runs: Seq<Run>,
    constraint: Option<TimeRange>,
    count: int,
)
    requires
        count >= 0,
    ensures
        ({
            let free = runs.filter(
                |run: Run|
                    match constraint {
                        Some(range) => !range.spec_contains(
                            TimeOfDay {
                                secs: (run.local.time.secs as int / 60 * 60) as u32,
                                frac: 0,
                            },
                        ),
                        None => true,
                    },
            );
            shown_runs(runs, constraint, count) == free.take(
                if count < free.len() {
                    count
                } else {
                    free.len() as int
                },
            )
        }),
    decreases runs.len(),
{
    reveal(Seq::filter);
    let keep = |run: Run|
        match constraint {
            Some(range) => !range.spec_contains(
                TimeOfDay { secs: (run.local.time.secs as int / 60 * 60) as u32, frac: 0 },
            ),
            None => true,
        };
    let free = runs.filter(keep);
    if runs.len() == 0 {
        assert(free.take(0) == Seq::<Run>::empty());
    } else {
        let front = runs.drop_last();
        law_first_free_firings_are_shown(front, constraint, count);
        let some = front.filter(keep);
        let run = runs.last();
        assert(keep(run) == !is_held_up(run, constraint));
        if keep(run) {
            assert(free == some.push(run));
            if some.len() < count {
                assert(some.take(some.len() as int) == some);
                assert(free.take(free.len() as int) == free);
            } else {
                assert(free.take(count) == some.take(count));
            }
        } else {
            assert(free == some);
        }
    }
}

/// A preview says which expression it is about and which range it keeps out of, then tells of
/// each firing that is shown when that is and how long from now, or that there is none.
pub proof fn law_preview_tells_of_each_firing(
    expr: Seq<char>,
    constraint: Option<TimeRange>,
    runs: Seq<Run>,
    now: Timestamp,
    count: int,
    i: int,
)
    ensures
        ({
            let lines = preview_lines(expr, constraint, runs, now, count);
            let shown = shown_runs(runs, constraint, count);
            let head: int = if constraint is Some {
                3
            } else {
                2
            };
            &&& lines[0] == "Cron: "@ + expr
            &&& constraint matches Some(range) ==> lines[1] == "Not during: "@
                + hour_minute_second_text(range.start.secs as int) + "-"@
                + hour_minute_second_text(range.end.secs as int)
            &&& lines[head - 1] == Seq::<char>::empty()
            &&& shown.len() == 0 ==> lines.len() == head + 1 && lines[head]
                == "  (no runs within the next "@ + decimal(count * 3) + " candidates)"@
            &&& shown.len() > 0 ==> lines.len() == head + shown.len()
            &&& 0 <= i < shown.len() ==> lines[head + i] == "  "@ + civil_text(
                (shown[i].local.day - 719_163) * 86_400 + shown[i].local.time.secs,
                shown[i].local.time.frac as int,
                "%Y-%m-%d %H:%M %a"@,
            ) + "  ("@ + duration_text(minutes_between(shown[i].instant, now)) + ")"@
        }),
{
}

/// The `cron` crate is asked for three times as many firings as are to be shown, of the
/// expression with its seconds, and the preview tells of those that it gives.
pub proof fn law_preview_asks_for_three_times_as_many(
    lines: Seq<Seq<char>>,
    expr: Seq<char>,
    constraint: Option<TimeRange>,
    count: int,
)
    requires
        is_preview(lines, expr, constraint, count),
    ensures
        exists|full: &str, found: Vec<Run>, now: Timestamp|
            full@ == with_seconds(expr) && #[trigger] is_now(now) && #[trigger] call_ensures(
                upcoming_runs,
                (full, (count * 3) as usize),
                Ok::<Vec<Run>, String>(found),
            ) && lines == preview_lines(expr, constraint, found@, now, count),
{
    let (full, found, now) = choose|full: &str, found: Vec<Run>, now: Timestamp|
        full@ == with_seconds(expr) && #[trigger] is_now(now) && #[trigger] are_found(
            found,
            full,
            (count * 3) as usize,
        ) && lines == preview_lines(expr, constraint, found@, now, count);
    assert(is_now(now) && call_ensures(
        upcoming_runs,
        (full, (count * 3) as usize),
        Ok::<Vec<Run>, String>(found),
    ));
}

/// A preview keeps out of the range that is named, where one is, and of none otherwise; a range
/// that cannot be read is said to be that.
pub proof fn law_preview_keeps_out_of_the_named_range(s: Seq<char>)
    ensures
        constraint_of(None) == Ok::<Option<TimeRange>, Fault>(None),
        constraint_of(Some(s)) == match time_range_of(s) {
            Ok(range) => Ok::<Option<TimeRange>, Fault>(Some(range)),
            Err(f) => Err::<Option<TimeRange>, Fault>(f),
        },
{
}

/// What is said of an expression that the `cron` crate refuses.
pub proof fn law_refused_expressions_are_named(expr: Seq<char>, fault: Seq<char>)
    ensures
        refusal(expr, fault) == PreviewFault::Cron(
            "Invalid cron expression "@ + quoted(expr) + ": "@ + fault,
        ),
{
}

} // verus!

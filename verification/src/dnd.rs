//! Do Not Disturb: a span of time in which jobs that mind it do not run.
use crate::moment::{
    civil_text, instant_after, is_now, minutes_between, minutes_from, quotient, utc_now, utc_text, Duration,
    Pattern, Timestamp, MAX_SECS, MIN_SECS,
};
use crate::number::{two_digit_text, two_digits};
use crate::store::State;
use crate::text::{lower_text, trimmed};
use crate::time_input::{duration_of, parse_duration, Fault, TimeInputError};
use vstd::prelude::*;

verus! {

/// What to say of Do Not Disturb that was turned on.
pub open spec fn set_text(until: Timestamp) -> Seq<char> {
    "DND set until "@ + civil_text(
        until.secs as int,
        until.nanos as int,
        Pattern::SecondUtc.spec_format(),
    )
}

/// Turn Do Not Disturb on for a length of time from an instant on; nothing changes where the
/// end lies beyond what can be held.
pub fn set_dnd_from(state: &mut State, duration: Duration, now: Timestamp) -> (r: Option<String>)
    requires
        duration.wf(),
        now.wf(),
        now.nanos < 1_000_000_000,
    ensures
        r is Some <==> MIN_SECS <= now.secs + duration.secs <= MAX_SECS,
        r is None ==> *final(state) == *old(state),
        r matches Some(t) ==> {
            let until = Timestamp { secs: (now.secs + duration.secs) as i64, nanos: now.nanos };
            final(state).dnd_until == Some(until) && t@ == set_text(until)
        },
{
    let until = match instant_after(now, duration) {
        Some(t) => t,
        None => {
            return None;
        },
    };
    state.set_dnd(until);
    let mut r = "DND set until ".to_owned();
    r.append(utc_text(until, Pattern::SecondUtc).as_str());
    Some(r)
}

/// `after` and `r` are what comes of turning Do Not Disturb on for a length of time, at an
/// instant.
pub open spec fn sets(
    before: State,
    after: State,
    duration: Duration,
    now: Timestamp,
    r: Result<Seq<char>, Fault>,
) -> bool {
    let until = Timestamp { secs: (now.secs + duration.secs) as i64, nanos: now.nanos };
    if MIN_SECS <= now.secs + duration.secs <= MAX_SECS {
        after.dnd_until == Some(until) && r == Ok::<Seq<char>, Fault>(set_text(until))
    } else {
        after == before && r == Err::<Seq<char>, Fault>(Fault::OutOfRange)
    }
}

/// `after` and `r` are what comes of turning Do Not Disturb on for a length of time now.
pub open spec fn sets_now(
    before: State,
    after: State,
    duration: Duration,
    r: Result<Seq<char>, Fault>,
) -> bool {
    exists|now: Timestamp| #[trigger] is_now(now) && sets(before, after, duration, now, r)
}

pub open spec fn text_result(r: Result<String, TimeInputError>) -> Result<Seq<char>, Fault> {
    match r {
        Ok(t) => Ok(t@),
        Err(e) => Err(e@),
    }
}

/// Turn Do Not Disturb on, for the length of time that a text names.
pub fn set_dnd(state: &mut State, duration_str: &str) -> (r: Result<String, TimeInputError>)
    ensures
        match duration_of(lower_text(trimmed(duration_str@))) {
            Err(f) => *final(state) == *old(state) && (r matches Err(e) && e@ == f),
            Ok(d) => sets_now(*old(state), *final(state), d, text_result(r)),
        },
{
    let ghost before = *state;
    let duration = match parse_duration(duration_str) {
        Ok(d) => d,
        Err(e) => {
            return Err(e);
        },
    };
    let now = utc_now();
    let r = match set_dnd_from(state, duration, now) {
        Some(t) => Ok(t),
        None => Err(TimeInputError::OutOfRange),
    };
    assert(is_now(now) && sets(before, *state, duration, now, text_result(r)));
    r
}

/// Do Not Disturb that was turned on is on from that instant up to, but not including, the
/// end of the length of time.
pub proof fn law_dnd_is_on_once_set(
    before: State,
    after: State,
    duration: Duration,
    now: Timestamp,
    message: Seq<char>,
    at: Timestamp,
)
    requires
        duration.secs > 0,
        sets(before, after, duration, now, Ok(message)),
    ensures
        after.dnd_at(now),
        after.dnd_at(at) <==> at.secs < now.secs + duration.secs || (at.secs == now.secs
            + duration.secs && at.nanos < now.nanos),
{
}

/// Turn Do Not Disturb off.
pub fn clear_dnd(state: &mut State) -> (r: String)
    ensures
        final(state).dnd_until is None,
        r@ == "DND cleared"@,
{
    state.clear_dnd();
    "DND cleared".to_owned()
}

/// What to say of Do Not Disturb: whether it is on at one instant, and how long it has left
/// to go at another.
pub open spec fn status_text(state: State, active_at: Timestamp, now: Timestamp) -> Seq<char> {
    if !state.dnd_at(active_at) {
        "DND is not active"@
    } else {
        let until = state.dnd_until->0;
        let minutes = minutes_between(until, now);
        "DND active until "@ + civil_text(
            until.secs as int,
            until.nanos as int,
            Pattern::SecondUtc.spec_format(),
        ) + " ("@ + two_digits(quotient(minutes, 60)) + "h "@ + two_digits(
            minutes - quotient(minutes, 60) * 60,
        ) + "m remaining)"@
    }
}

/// What to say of Do Not Disturb, given whether it is on and the whole minutes that it has
/// left to go.
pub fn dnd_status(until: Timestamp, minutes: i64) -> (r: String)
    requires
        until.wf(),
        minutes > i64::MIN,
    ensures
        r@ == "DND active until "@ + civil_text(
            until.secs as int,
            until.nanos as int,
            Pattern::SecondUtc.spec_format(),
        ) + " ("@ + two_digits(quotient(minutes as int, 60)) + "h "@ + two_digits(
            minutes - quotient(minutes as int, 60) * 60,
        ) + "m remaining)"@,
{
    let hours: i64 = if minutes >= 0 {
        minutes / 60
    } else {
        -((-minutes) / 60)
    };
    let mut r = "DND active until ".to_owned();
    r.append(utc_text(until, Pattern::SecondUtc).as_str());
    r.append(" (");
    r.append(two_digit_text(hours).as_str());
    r.append("h ");
    r.append(two_digit_text(minutes - hours * 60).as_str());
    r.append("m remaining)");
    r
}

/// What to say of Do Not Disturb, at instants given.
pub fn dnd_status_at(state: &State, active_at: Timestamp, now: Timestamp) -> (r: String)
    requires
        state.wf(),
        now.wf(),
    ensures
        r@ == status_text(*state, active_at, now),
{
    if state.is_dnd_active_at(active_at) {
        if let Some(until) = state.dnd_until {
            return dnd_status(until, minutes_from(now, until));
        }
    }
    "DND is not active".to_owned()
}

/// What to say of Do Not Disturb now.
pub fn show_dnd_status(state: &State) -> (r: String)
    requires
        state.wf(),
    ensures
        exists|active_at: Timestamp, now: Timestamp|
            #[trigger] is_now(active_at) && #[trigger] is_now(now) && r@ == status_text(
                *state,
                active_at,
                now,
            ),
        state.dnd_until is None ==> r@ == "DND is not active"@,
{
    let active_at = utc_now();
    let now = utc_now();
    let r = dnd_status_at(state, active_at, now);
    assert(is_now(active_at) && is_now(now));
    r
}

/// Do Not Disturb is turned on for any length of time whose end can be held: it ends that many
/// seconds after the instant at which it was turned on, and that end is told. Otherwise nothing
/// changes.
pub proof fn law_dnd_lasts_as_long_as_named(
    before: State,
    after: State,
    duration: Duration,
    now: Timestamp,
    r: Result<Seq<char>, Fault>,
)
    requires
        sets(before, after, duration, now, r),
    ensures
        MIN_SECS <= now.secs + duration.secs <= MAX_SECS ==> (after.dnd_until matches Some(until)
            && until.secs == now.secs + duration.secs && until.nanos == now.nanos && r == Ok::<
            Seq<char>,
            Fault,
        >("DND set until "@ + civil_text(until.secs as int, until.nanos as int, "%Y-%m-%d %H:%M:%S UTC"@))),
        !(MIN_SECS <= now.secs + duration.secs <= MAX_SECS) ==> after == before && r == Err::<
            Seq<char>,
            Fault,
        >(Fault::OutOfRange),
{
}

/// The status of Do Not Disturb tells until when it is on, and the hours and minutes that it has
/// left to go, where its end is still to come; else that it is not active.
pub proof fn law_dnd_status_tells_what_is_left(state: State, active_at: Timestamp, now: Timestamp)
    ensures
        state.dnd_until is None ==> status_text(state, active_at, now) == "DND is not active"@,
        state.dnd_until matches Some(until) ==> {
            let active = active_at.secs < until.secs || (active_at.secs == until.secs
                && active_at.nanos < until.nanos);
            &&& !active ==> status_text(state, active_at, now) == "DND is not active"@
            &&& active && minutes_between(until, now) >= 0 ==> status_text(state, active_at, now)
                == "DND active until "@ + civil_text(
                until.secs as int,
                until.nanos as int,
                "%Y-%m-%d %H:%M:%S UTC"@,
            ) + " ("@ + two_digits(minutes_between(until, now) / 60) + "h "@ + two_digits(
                minutes_between(until, now) % 60,
            ) + "m remaining)"@
        },
{
    if let Some(until) = state.dnd_until {
        let m = minutes_between(until, now);
        if m >= 0 {
            assert(m - quotient(m, 60) * 60 == m % 60);
        }
    }
}

/// What is left where the end of Do Not Disturb has passed in between is told with minus signs.
pub proof fn law_dnd_status_may_run_out(
    state: State,
    active_at: Timestamp,
    now: Timestamp,
    until: Timestamp,
)
    requires
        state.dnd_until == Some(until),
        state.dnd_at(active_at),
        minutes_between(until, now) < 0,
    ensures
        ({
            let gone = -minutes_between(until, now);
            status_text(state, active_at, now) == "DND active until "@ + civil_text(
                until.secs as int,
                until.nanos as int,
                "%Y-%m-%d %H:%M:%S UTC"@,
            ) + " ("@ + two_digits(-(gone / 60)) + "h "@ + two_digits(-(gone % 60))
                + "m remaining)"@
        }),
{
    let m = minutes_between(until, now);
    let gone = -m;
    assert(m - quotient(m, 60) * 60 == -(gone % 60));
}

} // verus!

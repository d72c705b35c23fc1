//! Jobs: what runs, when, and under which constraints.
use crate::moment::{TimeOfDay, Timestamp};
use crate::text::{copy_string, copy_strings, opt_text, string_views};
use vstd::prelude::*;

verus! {

/// A range of times of day, from `start` up to but not including `end`. Where `end` is no
/// later than `start`, the range goes on past midnight.
#[derive(Clone, Copy, Debug, PartialEq, Eq, Structural)]
pub struct TimeRange {
    pub start: TimeOfDay,
    pub end: TimeOfDay,
}

impl TimeRange {
    pub open spec fn wf(self) -> bool {
        self.start.wf() && self.end.wf()
    }

    pub open spec fn spec_contains(self, time: TimeOfDay) -> bool {
        if self.end.spec_le(self.start) {
            self.start.spec_le(time) || !self.end.spec_le(time)
        } else {
            self.start.spec_le(time) && !self.end.spec_le(time)
        }
    }

    /// Whether a time lies within this range.
    pub fn contains(&self, time: TimeOfDay) -> (r: bool)
        ensures
            r == self.spec_contains(time),
    {
        if self.end.le(&self.start) {
            self.start.le(&time) || !self.end.le(&time)
        } else {
            self.start.le(&time) && !self.end.le(&time)
        }
    }
}

/// Whether a time lies within one of several ranges.
pub open spec fn in_some_range(ranges: Seq<TimeRange>, time: TimeOfDay) -> bool {
    exists|i: int| 0 <= i < ranges.len() && (#[trigger] ranges[i]).spec_contains(time)
}

/// The position of the first range that a time lies within.
pub open spec fn first_range(ranges: Seq<TimeRange>, time: TimeOfDay) -> Option<int>
    decreases ranges.len(),
{
    if ranges.len() == 0 {
        None
    } else {
        match first_range(ranges.drop_last(), time) {
            Some(i) => Some(i),
            None => if ranges.last().spec_contains(time) {
                Some(ranges.len() - 1)
            } else {
                None
            },
        }
    }
}

/// The first range that a time lies within.
pub fn find_range(ranges: &Vec<TimeRange>, time: TimeOfDay) -> (r: Option<usize>)
    ensures
        r is Some <==> first_range(ranges@, time) is Some,
        r matches Some(i) ==> i < ranges@.len() && first_range(ranges@, time) == Some(i as int),
{
    let mut i: usize = 0;
    assert(ranges@.take(0).len() == 0);
    while i < ranges.len()
        invariant
            i <= ranges@.len(),
            first_range(ranges@.take(i as int), time) is None,
        decreases ranges.len() - i,
    {
        assert(ranges@.take(i + 1).drop_last() == ranges@.take(i as int));
        if ranges[i].contains(time) {
            proof {
                lemma_first_range_stays(ranges@, i + 1, time);
            }
            return Some(i);
        }
        i += 1;
    }
    assert(ranges@.take(i as int) == ranges@);
    None
}

/// More ranges at the end change nothing of the first that a time lies within.
proof fn lemma_first_range_stays(ranges: Seq<TimeRange>, n: int, time: TimeOfDay)
    requires
        0 <= n <= ranges.len(),
        first_range(ranges.take(n), time) is Some,
    ensures
        first_range(ranges, time) == first_range(ranges.take(n), time),
    decreases ranges.len(),
{
    if n < ranges.len() {
        assert(ranges.drop_last().take(n) == ranges.take(n));
        lemma_first_range_stays(ranges.drop_last(), n, time);
    } else {
        assert(ranges.take(n) == ranges);
    }
}

/// There is a first range that a time lies within where it lies within one at all; the time
/// lies within that one and within none before it.
pub proof fn lemma_first_range(ranges: Seq<TimeRange>, time: TimeOfDay)
    ensures
        first_range(ranges, time) is Some <==> in_some_range(ranges, time),
        first_range(ranges, time) matches Some(i) ==> {
            &&& 0 <= i < ranges.len()
            &&& ranges[i].spec_contains(time)
            &&& forall|j: int| 0 <= j < i ==> !(#[trigger] ranges[j]).spec_contains(time)
        },
    decreases ranges.len(),
{
    if ranges.len() > 0 {
        let front = ranges.drop_last();
        lemma_first_range(front, time);
        assert(forall|j: int| 0 <= j < front.len() ==> front[j] == ranges[j]);
        if in_some_range(ranges, time) {
            let i = choose|i: int|
                0 <= i < ranges.len() && (#[trigger] ranges[i]).spec_contains(time);
            if i < front.len() {
                assert(front[i].spec_contains(time));
            }
        }
        if first_range(front, time) is None && ranges.last().spec_contains(time) {
            assert forall|j: int| 0 <= j < front.len() implies !(
            #[trigger] ranges[j]).spec_contains(time) by {
                assert(!front[j].spec_contains(time));
            }
        }
    }
}

/// The end of a range lies outside it, unless the range goes all the way round.
pub proof fn law_end_is_exclusive(r: TimeRange)
    ensures
        r.spec_contains(r.end) <==> r.start == r.end,
{
}

/// The start of a range lies within it.
pub proof fn law_start_is_inclusive(r: TimeRange)
    ensures
        r.spec_contains(r.start),
{
}

/// A range that goes past midnight holds midnight, unless it ends there.
pub proof fn law_wrap_holds_midnight(r: TimeRange)
    requires
        r.wf(),
        r.end.spec_le(r.start),
        r.start != r.end,
    ensures
        r.spec_contains(TimeOfDay { secs: 0, frac: 0 }) <==> r.end != (TimeOfDay {
            secs: 0,
            frac: 0,
        }),
{
}

/// A range and the range with its ends exchanged divide the day: each time lies within
/// exactly one of them.
pub proof fn law_ranges_divide_the_day(r: TimeRange, time: TimeOfDay)
    requires
        r.start != r.end,
    ensures
        r.spec_contains(time) != (TimeRange { start: r.end, end: r.start }).spec_contains(time),
{
}

/// The conditions under which a job that is due runs.
#[derive(Debug)]
pub struct Constraints {
    pub not_during: Vec<TimeRange>,
    pub only_during: Vec<TimeRange>,
    pub dnd_aware: bool,
    /// Remove the job when its command exits with success.
    pub remove_on_success: bool,
    /// Run only after this job's last execution succeeded: an ID or a name.
    pub after: Option<String>,
}

#[verifier::ext_equal]
pub struct ConstraintsView {
    pub not_during: Seq<TimeRange>,
    pub only_during: Seq<TimeRange>,
    pub dnd_aware: bool,
    pub remove_on_success: bool,
    pub after: Option<Seq<char>>,
}

impl View for Constraints {
    type V = ConstraintsView;

    open spec fn view(&self) -> ConstraintsView {
        ConstraintsView {
            not_during: self.not_during@,
            only_during: self.only_during@,
            dnd_aware: self.dnd_aware,
            remove_on_success: self.remove_on_success,
            after: opt_text(self.after),
        }
    }
}

pub open spec fn ranges_wf(ranges: Seq<TimeRange>) -> bool {
    forall|i: int| 0 <= i < ranges.len() ==> (#[trigger] ranges[i]).wf()
}

impl ConstraintsView {
    pub open spec fn wf(self) -> bool {
        ranges_wf(self.not_during) && ranges_wf(self.only_during)
    }

    /// No condition at all.
    pub open spec fn none() -> ConstraintsView {
        ConstraintsView {
            not_during: Seq::empty(),
            only_during: Seq::empty(),
            dnd_aware: false,
            remove_on_success: false,
            after: None,
        }
    }
}

impl Default for Constraints {
    fn default() -> (r: Constraints)
        ensures
            r@ == ConstraintsView::none(),
    {
        Constraints {
            not_during: Vec::new(),
            only_during: Vec::new(),
            dnd_aware: false,
            remove_on_success: false,
            after: None,
        }
    }
}

fn copy_ranges(ranges: &Vec<TimeRange>) -> (r: Vec<TimeRange>)
    ensures
        r@ == ranges@,
{
    let mut r: Vec<TimeRange> = Vec::new();
    let mut i: usize = 0;
    while i < ranges.len()
        invariant
            i <= ranges@.len(),
            r@ == ranges@.take(i as int),
        decreases ranges.len() - i,
    {
        r.push(ranges[i]);
        i += 1;
        assert(r@ == ranges@.take(i as int));
    }
    r
}

impl Clone for Constraints {
    fn clone(&self) -> (r: Constraints)
        ensures
            r@ == self@,
    {
        Constraints {
            not_during: copy_ranges(&self.not_during),
            only_during: copy_ranges(&self.only_during),
            dnd_aware: self.dnd_aware,
            remove_on_success: self.remove_on_success,
            after: copy_string(&self.after),
        }
    }
}

/// How and when a job fires. The name of the systemd unit that fires it lives inside, and so
/// does the number of a job in the queue of at(1) where an older version put it there.
#[derive(Debug)]
pub enum Schedule {
    Once { at: Timestamp, unit: Option<String>, at_job: Option<String> },
    Cron { expr: String, unit: Option<String> },
}

#[verifier::ext_equal]
pub enum ScheduleView {
    Once { at: Timestamp, unit: Option<Seq<char>>, at_job: Option<Seq<char>> },
    Cron { expr: Seq<char>, unit: Option<Seq<char>> },
}

impl View for Schedule {
    type V = ScheduleView;

    open spec fn view(&self) -> ScheduleView {
        match *self {
            Schedule::Once { at, unit, at_job } => ScheduleView::Once {
                at,
                unit: opt_text(unit),
                at_job: opt_text(at_job),
            },
            Schedule::Cron { expr, unit } => ScheduleView::Cron {
                expr: expr@,
                unit: opt_text(unit),
            },
        }
    }
}

impl ScheduleView {
    pub open spec fn wf(self) -> bool {
        self matches ScheduleView::Once { at, .. } ==> at.wf()
    }

    /// The name of the unit that fires the job.
    pub open spec fn handle(self) -> Option<Seq<char>> {
        match self {
            ScheduleView::Once { unit, .. } => unit,
            ScheduleView::Cron { unit, .. } => unit,
        }
    }

    /// The same schedule, fired by the unit `h`.
    pub open spec fn with_handle(self, h: Seq<char>) -> ScheduleView {
        match self {
            ScheduleView::Once { at, at_job, .. } => ScheduleView::Once {
                at,
                unit: Some(h),
                at_job,
            },
            ScheduleView::Cron { expr, .. } => ScheduleView::Cron { expr, unit: Some(h) },
        }
    }

    /// Whether this is a single firing that is not after `now`.
    pub open spec fn already_fired(self, now: Timestamp) -> bool {
        self matches ScheduleView::Once { at, .. } && at.spec_le(now)
    }
}

impl Clone for Schedule {
    fn clone(&self) -> (r: Schedule)
        ensures
            r@ == self@,
    {
        match self {
            Schedule::Once { at, unit, at_job } => Schedule::Once {
                at: *at,
                unit: copy_string(unit),
                at_job: copy_string(at_job),
            },
            Schedule::Cron { expr, unit } => Schedule::Cron {
                expr: expr.clone(),
                unit: copy_string(unit),
            },
        }
    }
}

impl Schedule {
    /// Whether this is a single firing that is not after `now`.
    pub fn already_fired(&self, now: Timestamp) -> (r: bool)
        ensures
            r == self@.already_fired(now),
    {
        match self {
            Schedule::Once { at, .. } => at.le(&now),
            Schedule::Cron { .. } => false,
        }
    }
}

/// A command that runs on a schedule, and the conditions that it runs under.
#[derive(Debug)]
pub struct Job {
    pub id: String,
    pub name: String,
    pub schedule: Schedule,
    pub command: Vec<String>,
    pub constraints: Constraints,
    pub enabled: bool,
    pub created_at: Timestamp,
    pub created_by: String,
}

#[verifier::ext_equal]
pub struct JobView {
    pub id: Seq<char>,
    pub name: Seq<char>,
    pub schedule: ScheduleView,
    pub command: Seq<Seq<char>>,
    pub constraints: ConstraintsView,
    pub enabled: bool,
    pub created_at: Timestamp,
    pub created_by: Seq<char>,
}

impl View for Job {
    type V = JobView;

    open spec fn view(&self) -> JobView {
        JobView {
            id: self.id@,
            name: self.name@,
            schedule: self.schedule@,
            command: string_views(self.command@),
            constraints: self.constraints@,
            enabled: self.enabled,
            created_at: self.created_at,
            created_by: self.created_by@,
        }
    }
}

impl JobView {
    /// The instants and times of the job are ones that a date or a clock can show.
    pub open spec fn wf(self) -> bool {
        self.schedule.wf() && self.constraints.wf() && self.created_at.wf()
    }
}

impl Clone for Job {
    fn clone(&self) -> (r: Job)
        ensures
            r@ == self@,
    {
        Job {
            id: self.id.clone(),
            name: self.name.clone(),
            schedule: self.schedule.clone(),
            command: copy_strings(&self.command),
            constraints: self.constraints.clone(),
            enabled: self.enabled,
            created_at: self.created_at,
            created_by: self.created_by.clone(),
        }
    }
}

pub open spec fn is_hex(c: char) -> bool {
    '0' <= c <= '9' || 'a' <= c <= 'f'
}

pub open spec fn all_hex(s: Seq<char>) -> bool {
    forall|i: int| 0 <= i < s.len() ==> is_hex(#[trigger] s[i])
}

/// A UUID with its hyphens, in lower case.
pub open spec fn is_uuid_text(s: Seq<char>) -> bool {
    &&& s.len() == 36
    &&& forall|i: int|
        0 <= i < 36 ==> if i == 8 || i == 13 || i == 18 || i == 23 {
            #[trigger] s[i] == '-'
        } else {
            is_hex(s[i])
        }
}

/// `uuid::Uuid::new_v4` and its `to_string`: the text of a UUID that is drawn at random.
/// Which one it is, is left open.
#[verifier::external_body]
pub fn random_uuid() -> (r: String)
    ensures
        is_uuid_text(r@),
{
    uuid::Uuid::new_v4().to_string()
}

/// What `generate_id` may give: the name, a hyphen and the first six characters of a UUID that
/// was drawn for it.
pub open spec fn is_id_for(id: Seq<char>, name: Seq<char>) -> bool {
    exists|tag: String| #[trigger]
        call_ensures(random_uuid, (), tag) && id == name + "-"@ + tag@.take(6)
}

/// An ID is the name, a hyphen and six hexadecimal digits.
pub proof fn law_id_ends_in_six_digits(id: Seq<char>, name: Seq<char>)
    requires
        is_id_for(id, name),
    ensures
        exists|suffix: Seq<char>|
            suffix.len() == 6 && all_hex(suffix) && id == #[trigger] (name + "-"@ + suffix),
{
    let tag = choose|tag: String| #[trigger]
        call_ensures(random_uuid, (), tag) && id == name + "-"@ + tag@.take(6);
    let suffix = tag@.take(6);
    assert(all_hex(suffix)) by {
        assert forall|i: int| 0 <= i < 6 implies is_hex(#[trigger] suffix[i]) by {
            assert(suffix[i] == tag@[i]);
        }
    }
    assert(id == name + "-"@ + suffix);
}

impl Job {
    /// The ID of a job with this name, ended by the first six characters of `tag`.
    pub fn id_with(name: &str, tag: &str) -> (r: String)
        requires
            tag@.len() >= 6,
        ensures
            r@ == name@ + "-"@ + tag@.take(6),
    {
        let mut r = name.to_owned();
        r.append("-");
        let head = tag.substring_char(0, 6);
        assert(head@ == tag@.take(6));
        r.append(head);
        r
    }

    /// An ID for a job with this name.
    pub fn generate_id(name: &str) -> (r: String)
        ensures
            is_id_for(r@, name@),
    {
        let tag = random_uuid();
        let r = Job::id_with(name, tag.as_str());
        assert(call_ensures(random_uuid, (), tag));
        r
    }
}

/// Who made a job that does not say so.
pub fn default_created_by() -> (r: String)
    ensures
        r@ == "user"@,
{
    "user".to_owned()
}

/// A job as older versions stored it: the handles of the schedule may stand beside it, and
/// the constraints and the maker may be missing.
#[derive(Debug)]
pub struct RawJob {
    pub id: String,
    pub name: String,
    pub schedule: Schedule,
    pub command: Vec<String>,
    pub constraints: Option<Constraints>,
    pub enabled: bool,
    pub created_at: Timestamp,
    pub created_by: Option<String>,
    pub systemd_unit: Option<String>,
    pub at_job: Option<String>,
}

/// The first of two values that is there.
pub open spec fn either<T>(a: Option<T>, b: Option<T>) -> Option<T> {
    match a {
        Some(_) => a,
        None => b,
    }
}

/// A schedule with the handles that stood beside it: each goes inside where there is none.
pub open spec fn absorbed(
    schedule: ScheduleView,
    systemd_unit: Option<Seq<char>>,
    at_job: Option<Seq<char>>,
) -> ScheduleView {
    match schedule {
        ScheduleView::Once { at, unit, at_job: inner } => ScheduleView::Once {
            at,
            unit,
            at_job: either(inner, at_job),
        },
        ScheduleView::Cron { expr, unit } => ScheduleView::Cron {
            expr,
            unit: either(unit, systemd_unit),
        },
    }
}

impl RawJob {
    pub open spec fn spec_job(self) -> JobView {
        JobView {
            id: self.id@,
            name: self.name@,
            schedule: absorbed(self.schedule@, opt_text(self.systemd_unit), opt_text(self.at_job)),
            command: string_views(self.command@),
            constraints: match self.constraints {
                Some(c) => c@,
                None => ConstraintsView::none(),
            },
            enabled: self.enabled,
            created_at: self.created_at,
            created_by: match self.created_by {
                Some(s) => s@,
                None => "user"@,
            },
        }
    }

    /// The job that was stored, with its handles inside its schedule.
    pub fn into_job(self) -> (r: Job)
        ensures
            r@ == self.spec_job(),
    {
        let schedule = match self.schedule {
            Schedule::Once { at, unit, at_job } => Schedule::Once {
                at,
                unit,
                at_job: match at_job {
                    Some(h) => Some(h),
                    None => self.at_job,
                },
            },
            Schedule::Cron { expr, unit } => Schedule::Cron {
                expr,
                unit: match unit {
                    Some(h) => Some(h),
                    None => self.systemd_unit,
                },
            },
        };
        Job {
            id: self.id,
            name: self.name,
            schedule,
            command: self.command,
            constraints: match self.constraints {
                Some(c) => c,
                None => Constraints::default(),
            },
            enabled: self.enabled,
            created_at: self.created_at,
            created_by: match self.created_by {
                Some(s) => s,
                None => default_created_by(),
            },
        }
    }
}

/// A handle inside a schedule wins over one that stood beside it, and a handle that stood
/// beside a schedule of the other sort is dropped.
pub proof fn law_inner_handle_wins(
    schedule: ScheduleView,
    systemd_unit: Option<Seq<char>>,
    at_job: Option<Seq<char>>,
)
    ensures
        schedule.handle() is Some ==> absorbed(schedule, systemd_unit, at_job).handle()
            == schedule.handle(),
        schedule is Once ==> absorbed(schedule, systemd_unit, at_job).handle()
            == schedule.handle(),
        schedule is Cron && schedule.handle() is None ==> absorbed(
            schedule,
            systemd_unit,
            at_job,
        ).handle() == systemd_unit,
        absorbed(schedule, None, None) == schedule,
{
}

/// A time by which times of a day are compared.
pub open spec fn clock_value(t: TimeOfDay) -> int {
    t.secs * 2_000_000_000 + t.frac
}

/// A range that ends later than it starts holds the times from its start on, up to but not
/// including its end; any other range holds those from its start on, up to midnight, and those
/// from midnight on, up to but not including its end.
pub proof fn law_range_by_the_clock(r: TimeRange, time: TimeOfDay)
    requires
        r.wf(),
        time.wf(),
    ensures
        clock_value(r.start) < clock_value(r.end) ==> (r.spec_contains(time) <==> clock_value(
            r.start,
        ) <= clock_value(time) < clock_value(r.end)),
        clock_value(r.start) >= clock_value(r.end) ==> (r.spec_contains(time) <==> clock_value(time)
            >= clock_value(r.start) || clock_value(time) < clock_value(r.end)),
{
}

/// A unit that is recorded leaves the time of a schedule, its expression and its number in the
/// queue of at(1) as they were.
pub proof fn law_unit_is_all_that_is_recorded(s: ScheduleView, h: Seq<char>)
    ensures
        s.with_handle(h) is Once <==> s is Once,
        s matches ScheduleView::Once { at, at_job, .. } ==> s.with_handle(h)
            == (ScheduleView::Once { at, unit: Some(h), at_job }),
        s matches ScheduleView::Cron { expr, .. } ==> s.with_handle(h) == (ScheduleView::Cron {
            expr,
            unit: Some(h),
        }),
        s matches ScheduleView::Once { unit, .. } ==> s.handle() == unit,
        s matches ScheduleView::Cron { unit, .. } ==> s.handle() == unit,
{
}

/// A job that fires once has fired from that instant on, and one that recurs never has.
pub proof fn law_one_off_has_fired(s: ScheduleView, now: Timestamp)
    requires
        s.wf(),
        now.wf(),
    ensures
        s is Cron ==> !s.already_fired(now),
        s matches ScheduleView::Once { at, .. } ==> (s.already_fired(now) <==> at.secs < now.secs
            || (at.secs == now.secs && at.nanos <= now.nanos)),
{
}

/// A stored job is read whole: what it says is taken as it says it, and what it leaves out is
/// no constraint at all, or the user as its maker.
pub proof fn law_stored_job_is_read_whole(raw: RawJob)
    ensures
        raw.spec_job().id == raw.id@,
        raw.spec_job().name == raw.name@,
        raw.spec_job().command.len() == raw.command@.len(),
        forall|i: int|
            0 <= i < raw.command@.len() ==> (#[trigger] raw.spec_job().command[i])
                == raw.command@[i]@,
        raw.spec_job().enabled == raw.enabled,
        raw.spec_job().created_at == raw.created_at,
        raw.created_by matches Some(s) ==> raw.spec_job().created_by == s@,
        raw.created_by is None ==> raw.spec_job().created_by == "user"@,
        raw.constraints matches Some(c) ==> {
            let read = raw.spec_job().constraints;
            &&& read.not_during == c.not_during@
            &&& read.only_during == c.only_during@
            &&& read.dnd_aware == c.dnd_aware
            &&& read.remove_on_success == c.remove_on_success
            &&& (read.after is Some <==> c.after is Some)
            &&& (c.after matches Some(dep) ==> read.after == Some(dep@))
        },
        raw.constraints is None ==> {
            let read = raw.spec_job().constraints;
            &&& read.not_during.len() == 0
            &&& read.only_during.len() == 0
            &&& !read.dnd_aware
            &&& !read.remove_on_success
            &&& read.after is None
        },
        raw.schedule matches Schedule::Cron { expr, unit } ==> (raw.spec_job().schedule matches ScheduleView::Cron {
            expr: e,
            unit: u,
        } && e == expr@ && u == if unit is Some {
            opt_text(unit)
        } else {
            opt_text(raw.systemd_unit)
        }),
        raw.schedule matches Schedule::Once { at, unit, at_job } ==> (raw.spec_job().schedule matches ScheduleView::Once {
            at: t,
            unit: u,
            at_job: n,
        } && t == at && u == opt_text(unit) && n == if at_job is Some {
            opt_text(at_job)
        } else {
            opt_text(raw.at_job)
        }),
{
}

/// Whether a time lies within a range goes by the clock: that is what is answered.
pub proof fn law_containment_is_answered_by_the_clock(range: &TimeRange, time: TimeOfDay, r: bool)
    requires
        range.wf(),
        time.wf(),
        call_ensures(TimeRange::contains, (range, time), r),
    ensures
        r <==> if clock_value(range.start) < clock_value(range.end) {
            clock_value(range.start) <= clock_value(time) < clock_value(range.end)
        } else {
            clock_value(time) >= clock_value(range.start) || clock_value(time) < clock_value(
                range.end,
            )
        },
{
    law_range_by_the_clock(*range, time);
}

} // verus!

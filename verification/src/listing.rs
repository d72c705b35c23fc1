//! Jobs as they are shown to a user.
use crate::job::{Job, JobView, Schedule, ScheduleView};
use crate::moment::{is_local_text, local_text, Pattern};
use crate::store::job_views;
use crate::text::{
    contains_text, has_text, join, joined, lines, split_lines, starts_with, string_views,
    strip_prefix, views,
};
use vstd::prelude::*;

verus! {

/// Texts of when jobs fire: for each that fires once, the instant as local clocks show it.
pub open spec fn are_fire_texts(texts: Seq<Seq<char>>, jobs: Seq<JobView>) -> bool {
    &&& texts.len() == jobs.len()
    &&& forall|i: int|
        0 <= i < jobs.len() ==> (#[trigger] jobs[i].schedule matches ScheduleView::Once { at, .. }
            ==> is_local_text(texts[i], at, Pattern::Minute.spec_format()))
}

/// Texts of when jobs fire, for those that fire once.
pub fn fire_texts(jobs: &Vec<&Job>) -> (r: Vec<String>)
    requires
        forall|i: int| 0 <= i < jobs@.len() ==> (#[trigger] jobs@[i])@.wf(),
    ensures
        are_fire_texts(string_views(r@), job_views(jobs@)),
{
    let mut r: Vec<String> = Vec::new();
    let mut i: usize = 0;
    while i < jobs.len()
        invariant
            i <= jobs@.len(),
            r@.len() == i,
            forall|i: int| 0 <= i < jobs@.len() ==> (#[trigger] jobs@[i])@.wf(),
            forall|j: int|
                0 <= j < i ==> ((#[trigger] jobs@[j])@.schedule matches ScheduleView::Once { at, .. }
                    ==> is_local_text(r@[j]@, at, Pattern::Minute.spec_format())),
        decreases jobs.len() - i,
    {
        let job = jobs[i];
        assert(jobs@[i as int]@.wf());
        let text = match &job.schedule {
            Schedule::Once { at, .. } => local_text(*at, Pattern::Minute),
            Schedule::Cron { .. } => String::new(),
        };
        r.push(text);
        i += 1;
    }
    proof {
        let texts = string_views(r@);
        let all = job_views(jobs@);
        assert forall|k: int| 0 <= k < all.len() implies (
        #[trigger] all[k].schedule matches ScheduleView::Once { at, .. } ==> is_local_text(
            texts[k],
            at,
            Pattern::Minute.spec_format(),
        )) by {
            assert(all[k] == jobs@[k]@);
            assert(texts[k] == r@[k]@);
        }
    }
    r
}

/// Whether a job is enabled, in words.
pub open spec fn status_text(enabled: bool) -> Seq<char> {
    if enabled {
        "enabled"@
    } else {
        "disabled"@
    }
}

/// Whether a job is enabled, in words.
pub fn status(enabled: bool) -> (r: &'static str)
    ensures
        r@ == status_text(enabled),
{
    if enabled {
        "enabled"
    } else {
        "disabled"
    }
}

/// Some of a list of texts, each where its condition holds.
pub open spec fn those(items: Seq<(bool, Seq<char>)>) -> Seq<Seq<char>>
    decreases items.len(),
{
    if items.len() == 0 {
        Seq::empty()
    } else {
        let rest = those(items.drop_last());
        if items.last().0 {
            rest.push(items.last().1)
        } else {
            rest
        }
    }
}

/// What may mark a job out, and whether it does.
pub open spec fn flag_items(job: JobView) -> Seq<(bool, Seq<char>)> {
    let c = job.constraints;
    seq![
        (c.dnd_aware, "dnd-aware"@),
        (c.remove_on_success, "auto-remove"@),
        (c.not_during.len() > 0, "has-constraints"@),
        (c.after is Some, "after:"@ + c.after->0),
    ]
}

/// What marks a job out.
pub open spec fn flags(job: JobView) -> Seq<Seq<char>> {
    those(flag_items(job))
}

/// When a job fires.
pub open spec fn schedule_text(job: JobView, fire_text: Seq<char>) -> Seq<char> {
    match job.schedule {
        ScheduleView::Cron { expr, .. } => "cron: "@ + expr,
        ScheduleView::Once { .. } => "once: "@ + fire_text,
    }
}

/// A job in a listing: the line that describes it.
pub open spec fn job_line(job: JobView, fire_text: Seq<char>) -> Seq<char> {
    let marks = if flags(job).len() == 0 {
        Seq::empty()
    } else {
        " ["@ + joined(flags(job), ", "@) + "]"@
    };
    job.id + " ("@ + job.name + ") - "@ + schedule_text(job, fire_text) + " ["@ + status_text(
        job.enabled,
    ) + "]"@ + marks
}

/// A job in a listing: the line with its command.
pub open spec fn command_line(job: JobView) -> Seq<char> {
    "  command: "@ + joined(job.command, " "@)
}

/// The lines of a listing.
pub open spec fn list_lines(jobs: Seq<JobView>, fire_texts: Seq<Seq<char>>) -> Seq<Seq<char>>
    decreases jobs.len(),
{
    if jobs.len() == 0 {
        Seq::empty()
    } else {
        list_lines(jobs.drop_last(), fire_texts.drop_last()) + seq![
            job_line(jobs.last(), fire_texts.last()),
            command_line(jobs.last()),
        ]
    }
}

fn flags_of(job: &Job) -> (r: Vec<String>)
    ensures
        string_views(r@) == flags(job@),
{
    reveal_with_fuel(those, 5);
    let ghost items = flag_items(job@);
    let mut r: Vec<String> = Vec::new();
    proof {
        assert(items.drop_last() == items.take(3));
        assert(items.take(3).drop_last() == items.take(2));
        assert(items.take(2).drop_last() == items.take(1));
        assert(items.take(1).drop_last() == items.take(0));
        assert(string_views(r@) == those(items.take(0)));
    }
    if job.constraints.dnd_aware {
        let t = "dnd-aware".to_owned();
        r.push(t);
        assert(string_views(r@) == those(items.take(0)).push(t@));
    }
    assert(string_views(r@) == those(items.take(1)));
    if job.constraints.remove_on_success {
        let t = "auto-remove".to_owned();
        r.push(t);
        assert(string_views(r@) == those(items.take(1)).push(t@));
    }
    assert(string_views(r@) == those(items.take(2)));
    if job.constraints.not_during.len() > 0 {
        let t = "has-constraints".to_owned();
        r.push(t);
        assert(string_views(r@) == those(items.take(2)).push(t@));
    }
    assert(string_views(r@) == those(items.take(3)));
    if let Some(dep) = &job.constraints.after {
        let mut t = "after:".to_owned();
        t.append(dep.as_str());
        r.push(t);
        assert(string_views(r@) == those(items.take(3)).push(t@));
    }
    assert(string_views(r@) == those(items));
    r
}

fn line_of(job: &Job, fire_text: &str) -> (r: String)
    ensures
        r@ == job_line(job@, fire_text@),
{
    let mut when = String::new();
    match &job.schedule {
        Schedule::Cron { expr, .. } => {
            when.append("cron: ");
            when.append(expr.as_str());
        },
        Schedule::Once { .. } => {
            when.append("once: ");
            when.append(fire_text);
        },
    }
    assert(when@ == schedule_text(job@, fire_text@));
    let flags = flags_of(job);
    let mut marks = String::new();
    if flags.len() > 0 {
        marks.append(" [");
        marks.append(join(&flags, ", ").as_str());
        marks.append("]");
        assert(marks@ == " ["@ + joined(string_views(flags@), ", "@) + "]"@);
    }
    let mut r = job.id.clone();
    r.append(" (");
    r.append(job.name.as_str());
    r.append(") - ");
    r.append(when.as_str());
    r.append(" [");
    r.append(status(job.enabled));
    r.append("]");
    r.append(marks.as_str());
    r
}

/// The lines of a listing, given the texts of when jobs fire.
pub fn list_jobs(jobs: &Vec<&Job>, fire_texts: &Vec<String>) -> (r: Vec<String>)
    requires
        jobs@.len() == fire_texts@.len(),
    ensures
        string_views(r@) == list_lines(job_views(jobs@), string_views(fire_texts@)),
{
    let mut r: Vec<String> = Vec::new();
    let ghost all = job_views(jobs@);
    let ghost texts = string_views(fire_texts@);
    let mut i: usize = 0;
    assert(string_views(r@) == list_lines(all.take(0), texts.take(0)));
    while i < jobs.len()
        invariant
            i <= jobs@.len() == fire_texts@.len(),
            all == job_views(jobs@),
            texts == string_views(fire_texts@),
            string_views(r@) == list_lines(all.take(i as int), texts.take(i as int)),
        decreases jobs.len() - i,
    {
        let job = jobs[i];
        let line = line_of(job, fire_texts[i].as_str());
        let mut command = "  command: ".to_owned();
        command.append(join(&job.command, " ").as_str());
        let ghost before = string_views(r@);
        r.push(line);
        r.push(command);
        proof {
            assert(all.take(i + 1).drop_last() == all.take(i as int));
            assert(texts.take(i + 1).drop_last() == texts.take(i as int));
            assert(all.take(i + 1).last() == job@);
            assert(texts.take(i + 1).last() == fire_texts@[i as int]@);
            assert(string_views(r@) == before + seq![line@, command@]);
        }
        i += 1;
    }
    assert(all.take(i as int) == all);
    assert(texts.take(i as int) == texts);
    r
}

/// `lines` is a listing of the jobs.
pub open spec fn is_listing(lines: Seq<Seq<char>>, jobs: Seq<JobView>) -> bool {
    if jobs.len() == 0 {
        lines == seq!["No scheduled jobs"@]
    } else {
        exists|texts: Seq<Seq<char>>|
            are_fire_texts(texts, jobs) && lines == #[trigger] list_lines(jobs, texts)
    }
}

/// A listing of the jobs, with local times.
pub fn cmd_list(jobs: &Vec<&Job>) -> (r: Vec<String>)
    requires
        forall|i: int| 0 <= i < jobs@.len() ==> (#[trigger] jobs@[i])@.wf(),
    ensures
        is_listing(string_views(r@), job_views(jobs@)),
{
    if jobs.len() == 0 {
        let mut r: Vec<String> = Vec::new();
        r.push("No scheduled jobs".to_owned());
        assert(string_views(r@) == seq!["No scheduled jobs"@]);
        return r;
    }
    let texts = fire_texts(jobs);
    list_jobs(jobs, &texts)
}

/// Every job has two lines in a listing, in the order of the jobs: one that starts with its
/// ID, and one with its command.
pub proof fn law_listing_has_every_job(jobs: Seq<JobView>, texts: Seq<Seq<char>>, i: int)
    requires
        jobs.len() == texts.len(),
        0 <= i < jobs.len(),
    ensures
        list_lines(jobs, texts).len() == 2 * jobs.len(),
        list_lines(jobs, texts)[2 * i] == job_line(jobs[i], texts[i]),
        list_lines(jobs, texts)[2 * i + 1] == command_line(jobs[i]),
        starts_with(list_lines(jobs, texts)[2 * i], jobs[i].id),
    decreases jobs.len(),
{
    let front = list_lines(jobs.drop_last(), texts.drop_last());
    lemma_listing_len(jobs.drop_last(), texts.drop_last());
    if i < jobs.len() - 1 {
        law_listing_has_every_job(jobs.drop_last(), texts.drop_last(), i);
        assert(list_lines(jobs, texts)[2 * i] == front[2 * i]);
        assert(list_lines(jobs, texts)[2 * i + 1] == front[2 * i + 1]);
    }
    let line = job_line(jobs[i], texts[i]);
    assert(line.take(jobs[i].id.len() as int) == jobs[i].id);
}

proof fn lemma_listing_len(jobs: Seq<JobView>, texts: Seq<Seq<char>>)
    requires
        jobs.len() == texts.len(),
    ensures
        list_lines(jobs, texts).len() == 2 * jobs.len(),
    decreases jobs.len(),
{
    if jobs.len() > 0 {
        lemma_listing_len(jobs.drop_last(), texts.drop_last());
    }
}

/// A line of systemctl's list of timers that is about this program's timers, or is part of
/// the head or the rule of the list.
pub open spec fn is_timer_line(line: Seq<char>) -> bool {
    has_text(line, "usched-"@) || starts_with(line, "NEXT"@) || starts_with(line, "---"@)
}

/// The lines of a list of timers that are to be shown.
pub open spec fn timer_lines(ls: Seq<Seq<char>>) -> Seq<Seq<char>>
    decreases ls.len(),
{
    if ls.len() == 0 {
        Seq::empty()
    } else {
        let rest = timer_lines(ls.drop_last());
        if is_timer_line(ls.last()) {
            rest.push(ls.last())
        } else {
            rest
        }
    }
}

/// What to say of the next firings, given systemctl's list of all timers.
pub fn cmd_next(timers: &str) -> (r: Vec<String>)
    ensures
        string_views(r@) == seq!["=== Systemd Timers ==="@] + timer_lines(lines(timers@)),
{
    let mut r: Vec<String> = Vec::new();
    r.push("=== Systemd Timers ===".to_owned());
    let ls = split_lines(timers);
    let ghost all = lines(timers@);
    let ghost head = seq!["=== Systemd Timers ==="@];
    let mut i: usize = 0;
    assert(string_views(r@) == head + timer_lines(all.take(0)));
    while i < ls.len()
        invariant
            i <= ls@.len(),
            all == views(ls@),
            string_views(r@) == head + timer_lines(all.take(i as int)),
        decreases ls.len() - i,
    {
        let line = ls[i];
        proof {
            assert(all.take(i + 1).drop_last() == all.take(i as int));
            assert(all.take(i + 1).last() == line@);
        }
        if contains_text(line, "usched-") || strip_prefix(line, "NEXT").is_some() || strip_prefix(
            line,
            "---",
        ).is_some() {
            let ghost before = string_views(r@);
            let ghost kept = timer_lines(all.take(i as int));
            let t = line.to_owned();
            r.push(t);
            assert(string_views(r@) == before.push(line@));
            assert(before.push(line@) == head + kept.push(line@));
        }
        i += 1;
    }
    assert(all.take(i as int) == all);
    r
}

/// Of a list of texts those come out whose condition holds, in order, and no others.
pub proof fn law_those_whose_condition_holds(
    a: Seq<(bool, Seq<char>)>,
    b: Seq<(bool, Seq<char>)>,
    text: Seq<char>,
)
    ensures
        those(a + b) == those(a) + those(b),
        those(seq![(true, text)]) == seq![text],
        those(seq![(false, text)]) == Seq::<Seq<char>>::empty(),
    decreases b.len(),
{
    reveal_with_fuel(those, 2);
    let e = Seq::<(bool, Seq<char>)>::empty();
    assert(seq![(true, text)].drop_last() == e);
    assert(seq![(false, text)].drop_last() == e);
    assert(those(seq![(true, text)]) == seq![text]);
    if b.len() == 0 {
        assert(a + b == a);
        assert(those(a) + those(b) == those(a));
    } else {
        law_those_whose_condition_holds(a, b.drop_last(), text);
        assert((a + b).drop_last() == a + b.drop_last());
        assert((a + b).last() == b.last());
        if b.last().0 {
            assert((those(a) + those(b.drop_last())).push(b.last().1) == those(a) + those(
                b.drop_last(),
            ).push(b.last().1));
        }
    }
}

/// A job is marked as minding Do Not Disturb, as removed on success, as having ranges that it
/// keeps out of, and as following another job, each where it is so.
pub proof fn law_jobs_are_marked(job: JobView)
    ensures
        ({
            let e = Seq::<Seq<char>>::empty();
            let c = job.constraints;
            flags(job) == (if c.dnd_aware {
                seq!["dnd-aware"@]
            } else {
                e
            }) + (if c.remove_on_success {
                seq!["auto-remove"@]
            } else {
                e
            }) + (if c.not_during.len() > 0 {
                seq!["has-constraints"@]
            } else {
                e
            }) + (match c.after {
                Some(dep) => seq!["after:"@ + dep],
                None => e,
            })
        }),
{
    let items = flag_items(job);
    let a = seq![items[0]];
    let b = seq![items[1]];
    let c = seq![items[2]];
    let d = seq![items[3]];
    assert(items == a + b + c + d);
    law_those_whose_condition_holds(a, b, items[0].1);
    law_those_whose_condition_holds(a + b, c, items[1].1);
    law_those_whose_condition_holds(a + b + c, d, items[2].1);
    law_those_whose_condition_holds(a, b, items[3].1);
    assert(those(a) == if items[0].0 {
        seq![items[0].1]
    } else {
        Seq::empty()
    });
    assert(those(b) == if items[1].0 {
        seq![items[1].1]
    } else {
        Seq::empty()
    });
    assert(those(c) == if items[2].0 {
        seq![items[2].1]
    } else {
        Seq::empty()
    });
    assert(those(d) == if items[3].0 {
        seq![items[3].1]
    } else {
        Seq::empty()
    });
}

/// The line of a job tells its ID, its name, when it fires, whether it is enabled, and its marks
/// where it has any; the line after that its command.
pub proof fn law_line_tells_of_the_job(job: JobView, fire: Seq<char>)
    ensures
        ({
            let when = match job.schedule {
                ScheduleView::Cron { expr, .. } => "cron: "@ + expr,
                ScheduleView::Once { .. } => "once: "@ + fire,
            };
            let state = if job.enabled {
                "enabled"@
            } else {
                "disabled"@
            };
            let line = job.id + " ("@ + job.name + ") - "@ + when + " ["@ + state + "]"@;
            &&& flags(job).len() == 0 ==> job_line(job, fire) == line
            &&& flags(job).len() > 0 ==> job_line(job, fire) == line + (" ["@ + joined(
                flags(job),
                ", "@,
            ) + "]"@)
            &&& command_line(job) == "  command: "@ + joined(job.command, " "@)
        }),
{
    let line = job.id + " ("@ + job.name + ") - "@ + schedule_text(job, fire) + " ["@
        + status_text(job.enabled) + "]"@;
    assert(line + Seq::<char>::empty() == line);
}

/// A listing tells of every job in turn, in two lines, with the local time of one that fires
/// once; without jobs it says so.
pub proof fn law_listing_tells_of_every_job(lines: Seq<Seq<char>>, jobs: Seq<JobView>, i: int)
    requires
        is_listing(lines, jobs),
    ensures
        jobs.len() == 0 ==> lines == seq!["No scheduled jobs"@],
        0 <= i < jobs.len() ==> lines.len() == 2 * jobs.len() && lines[2 * i + 1]
            == "  command: "@ + joined(jobs[i].command, " "@) && exists|fire: Seq<char>| {
            &&& lines[2 * i] == #[trigger] job_line(jobs[i], fire)
            &&& jobs[i].schedule matches ScheduleView::Once { at, .. } ==> is_local_text(
                fire,
                at,
                "%Y-%m-%d %H:%M"@,
            )
        },
{
    if 0 <= i < jobs.len() {
        let texts = choose|texts: Seq<Seq<char>>|
            are_fire_texts(texts, jobs) && lines == #[trigger] list_lines(jobs, texts);
        law_listing_has_every_job(jobs, texts, i);
        assert(lines[2 * i] == job_line(jobs[i], texts[i]));
        assert(jobs[i].schedule matches ScheduleView::Once { at, .. } ==> is_local_text(
            texts[i],
            at,
            Pattern::Minute.spec_format(),
        ));
    }
}

/// Of the lines of systemctl's list those stay that name a unit of this program, or start with
/// `NEXT` or with three hyphens, in order; the others do not.
pub proof fn law_timer_lines_stay(a: Seq<Seq<char>>, line: Seq<char>, b: Seq<Seq<char>>)
    ensures
        has_text(line, "usched-"@) || starts_with(line, "NEXT"@) || starts_with(line, "---"@)
            ==> timer_lines(a + seq![line] + b) == timer_lines(a) + seq![line] + timer_lines(b),
        !(has_text(line, "usched-"@) || starts_with(line, "NEXT"@) || starts_with(line, "---"@))
            ==> timer_lines(a + seq![line] + b) == timer_lines(a) + timer_lines(b),
    decreases b.len(),
{
    let all = a + seq![line] + b;
    if b.len() == 0 {
        assert(all.drop_last() == a);
        assert(all.last() == line);
        assert(timer_lines(b) == Seq::<Seq<char>>::empty());
        assert(timer_lines(a) + seq![line] + timer_lines(b) == timer_lines(a).push(line));
        assert(timer_lines(a) + timer_lines(b) == timer_lines(a));
    } else {
        let front = b.drop_last();
        law_timer_lines_stay(a, line, front);
        assert(all.drop_last() == a + seq![line] + front);
        assert(all.last() == b.last());
        if is_timer_line(b.last()) {
            let f = timer_lines(front);
            assert((timer_lines(a) + seq![line] + f).push(b.last()) == timer_lines(a) + seq![line]
                + f.push(b.last()));
            assert((timer_lines(a) + f).push(b.last()) == timer_lines(a) + f.push(b.last()));
        }
    }
}

} // verus!

//! The schedule as a Markdown document.
use crate::history::{execution_views, executions_wf, outcome, outcome_text, Execution, ExecutionView};
use crate::job::{Job, JobView, Schedule, ScheduleView, TimeRange};
use crate::listing::{are_fire_texts, fire_texts, status, status_text};
use crate::moment::{
    hour_minute, hour_minute_text, is_local_text, is_now, local_text, utc_now, Pattern, Timestamp,
};
use crate::number::{decimal, signed_text};
use crate::store::job_views;
use crate::text::{has_text, join, joined, law_text_within, starts_with, string_views};
use vstd::prelude::*;

verus! {

/// What a job keeps out of.
pub open spec fn not_texts(ranges: Seq<TimeRange>) -> Seq<Seq<char>> {
    ranges.map_values(
        |r: TimeRange|
            "not "@ + hour_minute_text(r.start.secs as int) + "-"@ + hour_minute_text(
                r.end.secs as int,
            ),
    )
}

/// The conditions of a job that the document tells.
pub open spec fn constraint_texts(job: JobView) -> Seq<Seq<char>> {
    (if job.constraints.dnd_aware {
        seq!["DND-aware"@]
    } else {
        Seq::empty()
    }) + not_texts(job.constraints.not_during)
}

/// When a job fires.
pub open spec fn when_text(job: JobView, fire_text: Seq<char>) -> Seq<char> {
    match job.schedule {
        ScheduleView::Cron { expr, .. } => "`"@ + expr + "`"@,
        ScheduleView::Once { .. } => "once: "@ + fire_text,
    }
}

/// The row of a job in the table.
pub open spec fn row_text(job: JobView, fire_text: Seq<char>) -> Seq<char> {
    let constraints = if constraint_texts(job).len() == 0 {
        "—"@
    } else {
        joined(constraint_texts(job), ", "@)
    };
    "| **"@ + job.name + "** (`"@ + job.id + "`) | "@ + when_text(job, fire_text) + " | "@
        + status_text(job.enabled) + " | "@ + constraints + " |\n"@
}

/// The rows of the table.
pub open spec fn rows_text(jobs: Seq<JobView>, fire_texts: Seq<Seq<char>>) -> Seq<char>
    decreases jobs.len(),
{
    if jobs.len() == 0 {
        Seq::empty()
    } else {
        rows_text(jobs.drop_last(), fire_texts.drop_last()) + row_text(
            jobs.last(),
            fire_texts.last(),
        )
    }
}

/// How long an execution took. `seconds` writes that in seconds, to one decimal place.
pub open spec fn took_text(duration_ms: Option<i64>, seconds: Seq<char>) -> Seq<char> {
    match duration_ms {
        None => Seq::empty(),
        Some(ms) => if ms < 1000 {
            decimal(ms as int) + "ms"@
        } else {
            seconds + "s"@
        },
    }
}

/// The item of an execution in the list of recent ones.
pub open spec fn item_text(e: ExecutionView, time: Seq<char>, seconds: Seq<char>) -> Seq<char> {
    let head = "- "@ + time + " **"@ + e.job_name + "** — "@;
    match e.skipped_reason {
        Some(reason) => head + "skipped ("@ + reason + ")\n"@,
        None => head + outcome_text(e.exit_code, "running…"@) + " "@ + took_text(
            e.duration_ms,
            seconds,
        ) + "\n"@,
    }
}

/// The list of recent executions.
pub open spec fn items_text(
    executions: Seq<ExecutionView>,
    times: Seq<Seq<char>>,
    seconds: Seq<Seq<char>>,
) -> Seq<char>
    decreases executions.len(),
{
    if executions.len() == 0 {
        Seq::empty()
    } else {
        items_text(executions.drop_last(), times.drop_last(), seconds.drop_last()) + item_text(
            executions.last(),
            times.last(),
            seconds.last(),
        )
    }
}

/// The document: a table of the jobs, and the recent executions where there are any.
pub open spec fn export_text(
    now: Seq<char>,
    jobs: Seq<JobView>,
    fire_texts: Seq<Seq<char>>,
    executions: Seq<ExecutionView>,
    times: Seq<Seq<char>>,
    seconds: Seq<Seq<char>>,
) -> Seq<char> {
    let recent = if executions.len() == 0 {
        Seq::empty()
    } else {
        "\n## Recent Executions\n\n"@ + items_text(executions, times, seconds)
    };
    "# Scheduled Tasks\n\n*Generated: "@ + now + "*\n\n"@
        + "| Job | Schedule | Status | Constraints |\n"@
        + "|-----|----------|--------|-------------|\n"@ + rows_text(jobs, fire_texts) + recent
}

/// Every job has its row in the table.
pub proof fn law_document_has_every_job(jobs: Seq<JobView>, fires: Seq<Seq<char>>, i: int)
    requires
        jobs.len() == fires.len(),
        0 <= i < jobs.len(),
    ensures
        has_text(rows_text(jobs, fires), row_text(jobs[i], fires[i])),
    decreases jobs.len(),
{
    let row = row_text(jobs[i], fires[i]);
    let all = rows_text(jobs, fires);
    let front = rows_text(jobs.drop_last(), fires.drop_last());
    if i == jobs.len() - 1 {
        let k = front.len() as int;
        assert(all.subrange(k, k + row.len()) == row);
    } else {
        law_document_has_every_job(jobs.drop_last(), fires.drop_last(), i);
        let k = choose|k: int|
            #![trigger front.subrange(k, k + row.len())]
            0 <= k <= front.len() - row.len() && front.subrange(k, k + row.len()) == row;
        assert(all.subrange(k, k + row.len()) == row);
    }
}

fn constraints_of(job: &Job) -> (r: Vec<String>)
    requires
        job@.constraints.wf(),
    ensures
        string_views(r@) == constraint_texts(job@),
{
    let mut r: Vec<String> = Vec::new();
    if job.constraints.dnd_aware {
        r.push("DND-aware".to_owned());
    }
    let ranges = &job.constraints.not_during;
    let ghost head = if job@.constraints.dnd_aware {
        seq!["DND-aware"@]
    } else {
        Seq::empty()
    };
    let mut i: usize = 0;
    assert(string_views(r@) == head + not_texts(ranges@.take(0)));
    while i < ranges.len()
        invariant
            i <= ranges@.len(),
            ranges@ == job@.constraints.not_during,
            job@.constraints.wf(),
            string_views(r@) == head + not_texts(ranges@.take(i as int)),
        decreases ranges.len() - i,
    {
        let range = ranges[i];
        assert(job@.constraints.not_during[i as int].wf());
        let mut t = "not ".to_owned();
        t.append(hour_minute(range.start).as_str());
        t.append("-");
        t.append(hour_minute(range.end).as_str());
        let ghost before = string_views(r@);
        r.push(t);
        proof {
            assert(string_views(r@) == before.push(t@));
            assert(not_texts(ranges@.take(i + 1)) == not_texts(ranges@.take(i as int)).push(t@));
        }
        i += 1;
    }
    assert(ranges@.take(i as int) == ranges@);
    r
}

fn row(job: &Job, fire_text: &str) -> (r: String)
    requires
        job@.constraints.wf(),
    ensures
        r@ == row_text(job@, fire_text@),
{
    let mut when = String::new();
    match &job.schedule {
        Schedule::Cron { expr, .. } => {
            when.append("`");
            when.append(expr.as_str());
            when.append("`");
        },
        Schedule::Once { .. } => {
            when.append("once: ");
            when.append(fire_text);
        },
    }
    assert(when@ == when_text(job@, fire_text@));
    let list = constraints_of(job);
    let constraints = if list.len() == 0 {
        "—".to_owned()
    } else {
        join(&list, ", ")
    };
    let mut r = "| **".to_owned();
    r.append(job.name.as_str());
    r.append("** (`");
    r.append(job.id.as_str());
    r.append("`) | ");
    r.append(when.as_str());
    r.append(" | ");
    r.append(status(job.enabled));
    r.append(" | ");
    r.append(constraints.as_str());
    r.append(" |\n");
    r
}

fn item(e: &Execution, time: &str, seconds: &str) -> (r: String)
    ensures
        r@ == item_text(e@, time@, seconds@),
{
    let mut r = "- ".to_owned();
    r.append(time);
    r.append(" **");
    r.append(e.job_name.as_str());
    r.append("** — ");
    match &e.skipped_reason {
        Some(reason) => {
            r.append("skipped (");
            r.append(reason.as_str());
            r.append(")\n");
        },
        None => {
            let mut took = String::new();
            if let Some(ms) = e.duration_ms {
                if ms < 1000 {
                    took.append(signed_text(ms).as_str());
                    took.append("ms");
                } else {
                    took.append(seconds);
                    took.append("s");
                }
            }
            assert(took@ == took_text(e.duration_ms, seconds@));
            r.append(outcome(e.exit_code, "running…").as_str());
            r.append(" ");
            r.append(took.as_str());
            r.append("\n");
        },
    }
    r
}

/// The document, given the texts of all times in it and how many seconds executions took, to
/// one decimal place.
pub fn export_markdown(
    now: &str,
    jobs: &Vec<&Job>,
    fire_texts: &Vec<String>,
    executions: &Vec<Execution>,
    times: &Vec<String>,
    seconds: &Vec<String>,
) -> (r: String)
    requires
        forall|i: int| 0 <= i < jobs@.len() ==> (#[trigger] jobs@[i])@.wf(),
        fire_texts@.len() == jobs@.len(),
        times@.len() == executions@.len(),
        seconds@.len() == executions@.len(),
    ensures
        r@ == export_text(
            now@,
            job_views(jobs@),
            string_views(fire_texts@),
            execution_views(executions@),
            string_views(times@),
            string_views(seconds@),
        ),
{
    let ghost all = job_views(jobs@);
    let ghost fires = string_views(fire_texts@);
    let mut md = "# Scheduled Tasks\n\n*Generated: ".to_owned();
    md.append(now);
    md.append("*\n\n");
    md.append("| Job | Schedule | Status | Constraints |\n");
    md.append("|-----|----------|--------|-------------|\n");
    let ghost head = md@;
    let mut i: usize = 0;
    assert(md@ == head + rows_text(all.take(0), fires.take(0)));
    while i < jobs.len()
        invariant
            i <= jobs@.len() == fire_texts@.len(),
            all == job_views(jobs@),
            fires == string_views(fire_texts@),
            forall|i: int| 0 <= i < jobs@.len() ==> (#[trigger] jobs@[i])@.wf(),
            md@ == head + rows_text(all.take(i as int), fires.take(i as int)),
        decreases jobs.len() - i,
    {
        let job = jobs[i];
        assert(jobs@[i as int]@.wf());
        let line = row(job, fire_texts[i].as_str());
        let ghost before = rows_text(all.take(i as int), fires.take(i as int));
        md.append(line.as_str());
        proof {
            assert(all.take(i + 1).drop_last() == all.take(i as int));
            assert(fires.take(i + 1).drop_last() == fires.take(i as int));
            assert(all.take(i + 1).last() == job@);
            assert(fires.take(i + 1).last() == fire_texts@[i as int]@);
            assert(head + before + line@ == head + (before + line@));
        }
        i += 1;
    }
    assert(all.take(i as int) == all && fires.take(i as int) == fires);
    if executions.len() > 0 {
        let ghost es = execution_views(executions@);
        let ghost ts = string_views(times@);
        let ghost ss = string_views(seconds@);
        let ghost table = md@;
        md.append("\n## Recent Executions\n\n");
        let ghost start = "\n## Recent Executions\n\n"@;
        let mut k: usize = 0;
        assert(md@ == table + (start + items_text(es.take(0), ts.take(0), ss.take(0))));
        while k < executions.len()
            invariant
                k <= executions@.len() == times@.len(),
                seconds@.len() == executions@.len(),
                es == execution_views(executions@),
                ts == string_views(times@),
                ss == string_views(seconds@),
                md@ == table + (start + items_text(
                    es.take(k as int),
                    ts.take(k as int),
                    ss.take(k as int),
                )),
            decreases executions.len() - k,
        {
            let e = &executions[k];
            let line = item(e, times[k].as_str(), seconds[k].as_str());
            let ghost before = items_text(es.take(k as int), ts.take(k as int), ss.take(k as int));
            md.append(line.as_str());
            proof {
                assert(es.take(k + 1).drop_last() == es.take(k as int));
                assert(ts.take(k + 1).drop_last() == ts.take(k as int));
                assert(ss.take(k + 1).drop_last() == ss.take(k as int));
                assert(es.take(k + 1).last() == e@);
                assert(ts.take(k + 1).last() == times@[k as int]@);
                assert(ss.take(k + 1).last() == seconds@[k as int]@);
                assert(table + (start + before) + line@ == table + (start + (before + line@)));
            }
            k += 1;
        }
        assert(es.take(k as int) == es && ts.take(k as int) == ts && ss.take(k as int) == ss);
    } else {
        assert(md@ == md@ + Seq::<char>::empty());
    }
    md
}

/// Texts of when executions started, as local clocks show it.
pub open spec fn are_start_texts(texts: Seq<Seq<char>>, executions: Seq<ExecutionView>) -> bool {
    &&& texts.len() == executions.len()
    &&& forall|i: int|
        0 <= i < texts.len() ==> is_local_text(
            #[trigger] texts[i],
            executions[i].started_at,
            Pattern::Minute.spec_format(),
        )
}

/// Texts of when executions started.
pub fn start_texts(executions: &Vec<Execution>) -> (r: Vec<String>)
    requires
        executions_wf(executions@),
    ensures
        are_start_texts(string_views(r@), execution_views(executions@)),
{
    let mut r: Vec<String> = Vec::new();
    let mut i: usize = 0;
    while i < executions.len()
        invariant
            i <= executions@.len(),
            r@.len() == i,
            executions_wf(executions@),
            forall|j: int|
                0 <= j < i ==> is_local_text(
                    (#[trigger] r@[j])@,
                    executions@[j].started_at,
                    Pattern::Minute.spec_format(),
                ),
        decreases executions.len() - i,
    {
        assert(executions@[i as int].started_at.wf());
        r.push(local_text(executions[i].started_at, Pattern::Minute));
        i += 1;
    }
    proof {
        let texts = string_views(r@);
        assert forall|k: int| 0 <= k < texts.len() implies is_local_text(
            #[trigger] texts[k],
            execution_views(executions@)[k].started_at,
            Pattern::Minute.spec_format(),
        ) by {
            assert(texts[k] == r@[k]@);
        }
    }
    r
}

/// `md` is the document of the jobs and executions, made at the instant that the clock shows, with local times.
pub open spec fn is_export(
    md: Seq<char>,
    jobs: Seq<JobView>,
    executions: Seq<ExecutionView>,
    seconds: Seq<Seq<char>>,
) -> bool {
    exists|now: Timestamp, stamp: Seq<char>, fires: Seq<Seq<char>>, starts: Seq<Seq<char>>|
        is_now(now) && #[trigger] is_local_text(stamp, now, Pattern::Minute.spec_format())
            && #[trigger] are_fire_texts(fires, jobs) && #[trigger] are_start_texts(
            starts,
            executions,
        ) && md == export_text(stamp, jobs, fires, executions, starts, seconds)
}

/// The document of the jobs and the recent executions, with local times. `seconds` holds how
/// many seconds each execution took, to one decimal place.
pub fn cmd_export(jobs: &Vec<&Job>, executions: &Vec<Execution>, seconds: &Vec<String>) -> (r:
    String)
    requires
        forall|i: int| 0 <= i < jobs@.len() ==> (#[trigger] jobs@[i])@.wf(),
        executions_wf(executions@),
        seconds@.len() == executions@.len(),
    ensures
        is_export(
            r@,
            job_views(jobs@),
            execution_views(executions@),
            string_views(seconds@),
        ),
{
    let now = utc_now();
    let stamp = local_text(now, Pattern::Minute);
    let fires = fire_texts(jobs);
    let starts = start_texts(executions);
    export_markdown(stamp.as_str(), jobs, &fires, executions, &starts, seconds)
}

/// The row of a job tells its name, its ID, when it fires, whether it is enabled, and what it
/// minds and keeps out of, with a dash where there is nothing of that.
pub proof fn law_row_tells_of_the_job(job: JobView, fire: Seq<char>)
    ensures
        ({
            let when = match job.schedule {
                ScheduleView::Cron { expr, .. } => "`"@ + expr + "`"@,
                ScheduleView::Once { .. } => "once: "@ + fire,
            };
            let state = if job.enabled {
                "enabled"@
            } else {
                "disabled"@
            };
            let limits = if !job.constraints.dnd_aware && job.constraints.not_during.len() == 0 {
                "—"@
            } else {
                joined(constraint_texts(job), ", "@)
            };
            row_text(job, fire) == "| **"@ + job.name + "** (`"@ + job.id + "`) | "@ + when
                + " | "@ + state + " | "@ + limits + " |\n"@
        }),
{
}

/// The document tells of each range that a job keeps out of, in order, and first that the job
/// minds Do Not Disturb where it does.
pub proof fn law_limits_are_told(job: JobView, i: int)
    ensures
        ({
            let told = constraint_texts(job);
            let ranges = job.constraints.not_during;
            let first: int = if job.constraints.dnd_aware {
                1
            } else {
                0
            };
            &&& told.len() == first + ranges.len()
            &&& job.constraints.dnd_aware ==> told[0] == "DND-aware"@
            &&& 0 <= i < ranges.len() ==> told[first + i] == "not "@ + hour_minute_text(
                ranges[i].start.secs as int,
            ) + "-"@ + hour_minute_text(ranges[i].end.secs as int)
        }),
{
}

/// The item of an execution tells when it started, of which job it is, and why it was skipped or
/// how it ended and how long it took.
pub proof fn law_item_tells_of_the_execution(e: ExecutionView, time: Seq<char>, seconds: Seq<char>)
    ensures
        ({
            let head = "- "@ + time + " **"@ + e.job_name + "** — "@;
            let took = match e.duration_ms {
                None => Seq::<char>::empty(),
                Some(ms) => if ms < 1000 {
                    decimal(ms as int) + "ms"@
                } else {
                    seconds + "s"@
                },
            };
            match (e.skipped_reason, e.exit_code) {
                (Some(reason), _) => item_text(e, time, seconds) == head + "skipped ("@ + reason
                    + ")\n"@,
                (None, None) => item_text(e, time, seconds) == head + "running…"@ + " "@ + took
                    + "\n"@,
                (None, Some(code)) => if code == 0 {
                    item_text(e, time, seconds) == head + "✓"@ + " "@ + took + "\n"@
                } else {
                    item_text(e, time, seconds) == head + ("✗ exit "@ + decimal(code as int))
                        + " "@ + took + "\n"@
                },
            }
        }),
{
}

/// The rows and the items of two lists are those of both, one after the other.
pub proof fn law_rows_and_items_go_on(
    jobs: Seq<JobView>,
    job: JobView,
    fires: Seq<Seq<char>>,
    fire: Seq<char>,
    executions: Seq<ExecutionView>,
    e: ExecutionView,
    times: Seq<Seq<char>>,
    time: Seq<char>,
    seconds: Seq<Seq<char>>,
    took: Seq<char>,
)
    ensures
        rows_text(Seq::empty(), fires) == Seq::<char>::empty(),
        rows_text(jobs.push(job), fires.push(fire)) == rows_text(jobs, fires) + row_text(job, fire),
        items_text(Seq::empty(), times, seconds) == Seq::<char>::empty(),
        items_text(executions.push(e), times.push(time), seconds.push(took)) == items_text(
            executions,
            times,
            seconds,
        ) + item_text(e, time, took),
{
    assert(jobs.push(job).drop_last() == jobs);
    assert(fires.push(fire).drop_last() == fires);
    assert(executions.push(e).drop_last() == executions);
    assert(times.push(time).drop_last() == times);
    assert(seconds.push(took).drop_last() == seconds);
}

/// The document has its title and the time at which it was made, the table with its head and
/// rows, and the recent executions where there are any.
pub proof fn law_document_has_its_parts(
    now: Seq<char>,
    jobs: Seq<JobView>,
    fires: Seq<Seq<char>>,
    executions: Seq<ExecutionView>,
    times: Seq<Seq<char>>,
    seconds: Seq<Seq<char>>,
)
    ensures
        ({
            let table = "# Scheduled Tasks\n\n*Generated: "@ + now + "*\n\n"@
                + "| Job | Schedule | Status | Constraints |\n"@
                + "|-----|----------|--------|-------------|\n"@ + rows_text(jobs, fires);
            let md = export_text(now, jobs, fires, executions, times, seconds);
            &&& executions.len() == 0 ==> md == table
            &&& executions.len() > 0 ==> md == table + ("\n## Recent Executions\n\n"@ + items_text(
                executions,
                times,
                seconds,
            ))
        }),
{
    let table = "# Scheduled Tasks\n\n*Generated: "@ + now + "*\n\n"@
        + "| Job | Schedule | Status | Constraints |\n"@
        + "|-----|----------|--------|-------------|\n"@ + rows_text(jobs, fires);
    assert(table + Seq::<char>::empty() == table);
}

/// A document that was made has every job in it, with the local time of one that fires once, and
/// the instant that the clock showed.
pub proof fn law_export_tells_of_every_job(
    md: Seq<char>,
    jobs: Seq<JobView>,
    executions: Seq<ExecutionView>,
    seconds: Seq<Seq<char>>,
    i: int,
)
    requires
        is_export(md, jobs, executions, seconds),
        0 <= i < jobs.len(),
    ensures
        exists|fire: Seq<char>| {
            &&& has_text(md, #[trigger] row_text(jobs[i], fire))
            &&& jobs[i].schedule matches ScheduleView::Once { at, .. } ==> is_local_text(
                fire,
                at,
                "%Y-%m-%d %H:%M"@,
            )
        },
        exists|now: Timestamp, stamp: Seq<char>|
            #![trigger is_local_text(stamp, now, "%Y-%m-%d %H:%M"@)]
            is_now(now) && is_local_text(stamp, now, "%Y-%m-%d %H:%M"@) && starts_with(
                md,
                "# Scheduled Tasks\n\n*Generated: "@ + stamp + "*\n\n"@,
            ),
{
    let (now, stamp, fires, starts) = choose|
        now: Timestamp,
        stamp: Seq<char>,
        fires: Seq<Seq<char>>,
        starts: Seq<Seq<char>>,
    |
        is_now(now) && #[trigger] is_local_text(stamp, now, Pattern::Minute.spec_format())
            && #[trigger] are_fire_texts(fires, jobs) && #[trigger] are_start_texts(
            starts,
            executions,
        ) && md == export_text(stamp, jobs, fires, executions, starts, seconds);
    lemma_document_of(stamp, jobs, fires, executions, starts, seconds, i);
    assert(jobs[i].schedule matches ScheduleView::Once { at, .. } ==> is_local_text(
        fires[i],
        at,
        Pattern::Minute.spec_format(),
    ));
    assert(has_text(md, row_text(jobs[i], fires[i])));
    assert(is_local_text(stamp, now, "%Y-%m-%d %H:%M"@));
}

proof fn lemma_document_of(
    stamp: Seq<char>,
    jobs: Seq<JobView>,
    fires: Seq<Seq<char>>,
    executions: Seq<ExecutionView>,
    starts: Seq<Seq<char>>,
    seconds: Seq<Seq<char>>,
    i: int,
)
    requires
        jobs.len() == fires.len(),
        0 <= i < jobs.len(),
    ensures
        has_text(
            export_text(stamp, jobs, fires, executions, starts, seconds),
            row_text(jobs[i], fires[i]),
        ),
        starts_with(
            export_text(stamp, jobs, fires, executions, starts, seconds),
            "# Scheduled Tasks\n\n*Generated: "@ + stamp + "*\n\n"@,
        ),
{
    let top = "# Scheduled Tasks\n\n*Generated: "@ + stamp + "*\n\n"@;
    let rest = if executions.len() == 0 {
        Seq::empty()
    } else {
        "\n## Recent Executions\n\n"@ + items_text(executions, starts, seconds)
    };
    law_document_has_every_job(jobs, fires, i);
    lemma_row_within(
        export_text(stamp, jobs, fires, executions, starts, seconds),
        top,
        "| Job | Schedule | Status | Constraints |\n"@,
        "|-----|----------|--------|-------------|\n"@,
        rows_text(jobs, fires),
        rest,
        row_text(jobs[i], fires[i]),
    );
}

proof fn lemma_row_within(
    md: Seq<char>,
    top: Seq<char>,
    head: Seq<char>,
    rule: Seq<char>,
    rows: Seq<char>,
    rest: Seq<char>,
    row: Seq<char>,
)
    requires
        md == top + head + rule + rows + rest,
        has_text(rows, row),
    ensures
        has_text(md, row),
        starts_with(md, top),
{
    assert(md == top + (head + rule + rows + rest));
    law_text_within(Seq::empty(), top, head + rule + rows + rest, md);
    let k = choose|k: int|
        #![trigger rows.subrange(k, k + row.len())]
        0 <= k <= rows.len() - row.len() && rows.subrange(k, k + row.len()) == row;
    let before = rows.take(k);
    let after = rows.skip(k + row.len());
    assert(rows == before + row + after);
    assert(md == (top + head + rule + before) + row + (after + rest));
    law_text_within(top + head + rule + before, row, after + rest, md);
}

/// Every execution has its item in the list.
pub proof fn law_document_has_every_execution(
    executions: Seq<ExecutionView>,
    times: Seq<Seq<char>>,
    seconds: Seq<Seq<char>>,
    i: int,
)
    requires
        executions.len() == times.len() == seconds.len(),
        0 <= i < executions.len(),
    ensures
        has_text(
            items_text(executions, times, seconds),
            item_text(executions[i], times[i], seconds[i]),
        ),
    decreases executions.len(),
{
    let item = item_text(executions[i], times[i], seconds[i]);
    let all = items_text(executions, times, seconds);
    let front = items_text(executions.drop_last(), times.drop_last(), seconds.drop_last());
    if i == executions.len() - 1 {
        let k = front.len() as int;
        assert(all.subrange(k, k + item.len()) == item);
    } else {
        law_document_has_every_execution(
            executions.drop_last(),
            times.drop_last(),
            seconds.drop_last(),
            i,
        );
        let k = choose|k: int|
            #![trigger front.subrange(k, k + item.len())]
            0 <= k <= front.len() - item.len() && front.subrange(k, k + item.len()) == item;
        assert(all.subrange(k, k + item.len()) == item);
    }
}

/// A document that was made has every execution in it, with the local time at which it started.
pub proof fn law_export_tells_of_every_execution(
    md: Seq<char>,
    jobs: Seq<JobView>,
    executions: Seq<ExecutionView>,
    seconds: Seq<Seq<char>>,
    i: int,
)
    requires
        is_export(md, jobs, executions, seconds),
        seconds.len() == executions.len(),
        0 <= i < executions.len(),
    ensures
        exists|start: Seq<char>|
            has_text(md, #[trigger] item_text(executions[i], start, seconds[i])) && is_local_text(
                start,
                executions[i].started_at,
                "%Y-%m-%d %H:%M"@,
            ),
{
    let (now, stamp, fires, starts) = choose|
        now: Timestamp,
        stamp: Seq<char>,
        fires: Seq<Seq<char>>,
        starts: Seq<Seq<char>>,
    |
        is_now(now) && #[trigger] is_local_text(stamp, now, Pattern::Minute.spec_format())
            && #[trigger] are_fire_texts(fires, jobs) && #[trigger] are_start_texts(
            starts,
            executions,
        ) && md == export_text(stamp, jobs, fires, executions, starts, seconds);
    law_document_has_every_execution(executions, starts, seconds, i);
    lemma_item_within(
        md,
        "# Scheduled Tasks\n\n*Generated: "@ + stamp + "*\n\n"@
            + "| Job | Schedule | Status | Constraints |\n"@
            + "|-----|----------|--------|-------------|\n"@ + rows_text(jobs, fires),
        "\n## Recent Executions\n\n"@,
        items_text(executions, starts, seconds),
        item_text(executions[i], starts[i], seconds[i]),
    );
    assert(is_local_text(starts[i], executions[i].started_at, Pattern::Minute.spec_format()));
    assert(has_text(md, item_text(executions[i], starts[i], seconds[i])));
}

proof fn lemma_item_within(
    md: Seq<char>,
    table: Seq<char>,
    head: Seq<char>,
    items: Seq<char>,
    item: Seq<char>,
)
    requires
        md == table + (head + items),
        has_text(items, item),
    ensures
        has_text(md, item),
{
    let k = choose|k: int|
        #![trigger items.subrange(k, k + item.len())]
        0 <= k <= items.len() - item.len() && items.subrange(k, k + item.len()) == item;
    let before = items.take(k);
    let after = items.skip(k + item.len());
    assert(items == before + item + after);
    assert(md == (table + head + before) + item + after);
    law_text_within(table + head + before, item, after, md);
}

} // verus!

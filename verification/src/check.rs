//! The health of all jobs and timers.
use crate::job::{Job, JobView, ScheduleView};
use crate::listing::{law_those_whose_condition_holds, those};
use crate::moment::Timestamp;
use crate::number::{decimal, decimal_text, lemma_decimal_reads_back};
use crate::store::job_views;
use crate::systemd::TimerReport;
use crate::text::{is_digit, same, string_views};
use vstd::prelude::*;

verus! {

/// The units of a list of jobs.
pub open spec fn units_of(jobs: Seq<JobView>) -> Seq<Seq<char>>
    decreases jobs.len(),
{
    if jobs.len() == 0 {
        Seq::empty()
    } else {
        let rest = units_of(jobs.drop_last());
        match jobs.last().schedule.handle() {
            Some(h) => rest.push(h),
            None => rest,
        }
    }
}

/// The units of a list of jobs.
pub fn known_units(jobs: &Vec<&Job>) -> (r: Vec<String>)
    ensures
        string_views(r@) == units_of(job_views(jobs@)),
{
    let mut r: Vec<String> = Vec::new();
    let ghost all = job_views(jobs@);
    let mut i: usize = 0;
    assert(string_views(r@) == units_of(all.take(0)));
    while i < jobs.len()
        invariant
            i <= jobs@.len(),
            all == job_views(jobs@),
            string_views(r@) == units_of(all.take(i as int)),
        decreases jobs.len() - i,
    {
        proof {
            assert(all.take(i + 1).drop_last() == all.take(i as int));
            assert(all.take(i + 1).last() == jobs@[i as int]@);
        }
        if let Some(h) = jobs[i].schedule.handle() {
            let ghost before = string_views(r@);
            let t = h.to_owned();
            r.push(t);
            assert(string_views(r@) == before.push(h@));
        }
        i += 1;
    }
    assert(all.take(i as int) == all);
    r
}

/// The unit of each job is among them.
pub proof fn law_units_are_known(jobs: Seq<JobView>, i: int)
    requires
        0 <= i < jobs.len(),
        jobs[i].schedule.handle() is Some,
    ensures
        units_of(jobs).contains(jobs[i].schedule.handle()->0),
    decreases jobs.len(),
{
    let units = units_of(jobs);
    if i == jobs.len() - 1 {
        assert(units.last() == jobs[i].schedule.handle()->0);
    } else {
        let front = jobs.drop_last();
        law_units_are_known(front, i);
        let k = choose|k: int|
            0 <= k < units_of(front).len() && units_of(front)[k] == front[i].schedule.handle()->0;
        assert(units[k] == units_of(front)[k]);
    }
}

/// What is found of a job: whether its program is in the search path, and its timer. `now`
/// is when its timer was looked at.
#[derive(Debug)]
pub struct Finding {
    pub command_found: bool,
    pub now: Timestamp,
    pub report: TimerReport,
}

#[verifier::ext_equal]
pub struct FindingView {
    pub command_found: bool,
    pub now: Timestamp,
    pub healthy: bool,
}

impl View for Finding {
    type V = FindingView;

    open spec fn view(&self) -> FindingView {
        FindingView {
            command_found: self.command_found,
            now: self.now,
            healthy: self.report.healthy(),
        }
    }
}

pub open spec fn finding_views(s: Seq<Finding>) -> Seq<FindingView> {
    s.map_values(|f: Finding| f@)
}

/// How many jobs have a name.
pub open spec fn name_count(jobs: Seq<JobView>, name: Seq<char>) -> nat
    decreases jobs.len(),
{
    if jobs.len() == 0 {
        0
    } else {
        name_count(jobs.drop_last(), name) + if jobs.last().name == name {
            1nat
        } else {
            0nat
        }
    }
}

/// What may be wrong with a job, where `count` jobs have its name, and whether it is. A timer
/// that has fired need not be there any more.
pub open spec fn issue_items(job: JobView, f: FindingView, count: int) -> Seq<(bool, Seq<char>)> {
    let pending = !job.schedule.already_fired(f.now);
    seq![
        (
            job.command.len() > 0 && !f.command_found,
            "command '"@ + job.command[0] + "' not found in PATH"@,
        ),
        match job.schedule.handle() {
            Some(h) => (pending && !f.healthy, "timer '"@ + h + "' not enabled/healthy"@),
            None => (pending, "no systemd unit recorded"@),
        },
        (count > 1, "duplicate name '"@ + job.name + "' ("@ + decimal(count) + " jobs)"@),
    ]
}

/// What is wrong with a job, where `count` jobs have its name.
pub open spec fn issues(job: JobView, f: FindingView, count: int) -> Seq<Seq<char>> {
    those(issue_items(job, f, count))
}

/// What to say of a job.
pub open spec fn job_report(job: JobView, found: Seq<Seq<char>>) -> Seq<Seq<char>> {
    if found.len() == 0 {
        seq!["✓ "@ + job.id + " ("@ + job.name + ")"@]
    } else {
        seq!["✗ "@ + job.id + " ("@ + job.name + "):"@] + found.map_values(
            |issue: Seq<char>| "    - "@ + issue,
        )
    }
}

/// What to say of the first `n` jobs.
pub open spec fn job_reports(jobs: Seq<JobView>, findings: Seq<FindingView>, n: int) -> Seq<
    Seq<char>,
>
    decreases n,
{
    if n <= 0 {
        Seq::empty()
    } else {
        let job = jobs[n - 1];
        job_reports(jobs, findings, n - 1) + job_report(
            job,
            issues(job, findings[n - 1], name_count(jobs, job.name) as int),
        )
    }
}

/// How many things are wrong with the first `n` jobs.
pub open spec fn issue_count(jobs: Seq<JobView>, findings: Seq<FindingView>, n: int) -> int
    decreases n,
{
    if n <= 0 {
        0
    } else {
        let job = jobs[n - 1];
        issue_count(jobs, findings, n - 1) + issues(
            job,
            findings[n - 1],
            name_count(jobs, job.name) as int,
        ).len()
    }
}

/// What to say of an orphaned timer.
pub open spec fn orphan_line(unit: Seq<char>) -> Seq<char> {
    "  ✗ "@ + unit + " (not in jobs.json — run 'usched sync' to clean)"@
}

/// What to say of the orphaned timers.
pub open spec fn orphan_report(orphans: Seq<Seq<char>>) -> Seq<Seq<char>> {
    if orphans.len() == 0 {
        Seq::empty()
    } else {
        seq![Seq::empty(), "Orphaned timers ("@ + decimal(orphans.len() as int) + "):"@]
            + orphans.map_values(|u: Seq<char>| orphan_line(u))
    }
}

/// What to say in the end.
pub open spec fn verdict(errors: int) -> Seq<char> {
    if errors == 0 {
        "All checks passed."@
    } else {
        decimal(errors) + " issue(s) found. Run 'usched sync' to fix timer issues."@
    }
}

/// What to say of all jobs and of the orphaned timers.
pub open spec fn check_report(
    jobs: Seq<JobView>,
    findings: Seq<FindingView>,
    orphans: Seq<Seq<char>>,
) -> Seq<Seq<char>> {
    if jobs.len() == 0 {
        seq!["No jobs configured."@]
    } else {
        job_reports(jobs, findings, jobs.len() as int) + orphan_report(orphans) + seq![
            Seq::empty(),
            verdict(issue_count(jobs, findings, jobs.len() as int) + orphans.len()),
        ]
    }
}

fn count_name(jobs: &Vec<&Job>, name: &str) -> (r: usize)
    ensures
        r == name_count(job_views(jobs@), name@),
{
    let ghost all = job_views(jobs@);
    let mut n: usize = 0;
    let mut i: usize = 0;
    assert(name_count(all.take(0), name@) == 0);
    while i < jobs.len()
        invariant
            i <= jobs@.len(),
            n <= i,
            all == job_views(jobs@),
            n == name_count(all.take(i as int), name@),
        decreases jobs.len() - i,
    {
        proof {
            assert(all.take(i + 1).drop_last() == all.take(i as int));
            assert(all.take(i + 1).last() == jobs@[i as int]@);
        }
        if same(jobs[i].name.as_str(), name) {
            n += 1;
        }
        i += 1;
    }
    assert(all.take(i as int) == all);
    n
}

/// What is wrong with a job, where `count` jobs have its name.
pub fn job_issues(job: &Job, finding: &Finding, count: usize) -> (r: Vec<String>)
    ensures
        string_views(r@) == issues(job@, finding@, count as int),
{
    reveal_with_fuel(those, 4);
    let ghost items = issue_items(job@, finding@, count as int);
    let mut r: Vec<String> = Vec::new();
    proof {
        assert(items.drop_last() == items.take(2));
        assert(items.take(2).drop_last() == items.take(1));
        assert(items.take(1).drop_last() == items.take(0));
        assert(string_views(r@) == those(items.take(0)));
    }
    if job.command.len() > 0 && !finding.command_found {
        let mut t = "command '".to_owned();
        t.append(job.command[0].as_str());
        t.append("' not found in PATH");
        r.push(t);
        assert(string_views(r@) == those(items.take(0)).push(t@));
    }
    assert(string_views(r@) == those(items.take(1)));
    if !job.schedule.already_fired(finding.now) {
        match job.schedule.handle() {
            Some(handle) => {
                if !job.schedule.backend().verify(&finding.report) {
                    let mut t = "timer '".to_owned();
                    t.append(handle);
                    t.append("' not enabled/healthy");
                    r.push(t);
                    assert(string_views(r@) == those(items.take(1)).push(t@));
                }
            },
            None => {
                let t = "no systemd unit recorded".to_owned();
                r.push(t);
                assert(string_views(r@) == those(items.take(1)).push(t@));
            },
        }
    }
    assert(string_views(r@) == those(items.take(2)));
    if count > 1 {
        let mut t = "duplicate name '".to_owned();
        t.append(job.name.as_str());
        t.append("' (");
        t.append(decimal_text(count as u64).as_str());
        t.append(" jobs)");
        r.push(t);
        assert(string_views(r@) == those(items.take(2)).push(t@));
    }
    assert(string_views(r@) == those(items));
    r
}

/// What to say of all jobs and of the orphaned timers, given what is found of each job.
pub fn cmd_check(jobs: &Vec<&Job>, findings: &Vec<Finding>, orphaned: &Vec<String>) -> (r: Vec<
    String,
>)
    requires
        findings@.len() == jobs@.len(),
    ensures
        string_views(r@) == check_report(
            job_views(jobs@),
            finding_views(findings@),
            string_views(orphaned@),
        ),
{
    let ghost all = job_views(jobs@);
    let ghost found = finding_views(findings@);
    let ghost orphans = string_views(orphaned@);
    let mut r: Vec<String> = Vec::new();
    if jobs.len() == 0 {
        r.push("No jobs configured.".to_owned());
        assert(string_views(r@) == seq!["No jobs configured."@]);
        return r;
    }
    let mut errors: usize = 0;
    let mut i: usize = 0;
    assert(string_views(r@) == job_reports(all, found, 0));
    while i < jobs.len()
        invariant
            i <= jobs@.len() == findings@.len(),
            all == job_views(jobs@),
            found == finding_views(findings@),
            errors <= r@.len(),
            errors == issue_count(all, found, i as int),
            string_views(r@) == job_reports(all, found, i as int),
        decreases jobs.len() - i,
    {
        let job = jobs[i];
        let list = job_issues(job, &findings[i], count_name(jobs, job.name.as_str()));
        let ghost these = issues(all[i as int], found[i as int], name_count(all, job@.name) as int);
        assert(string_views(list@) == these);
        let ghost before = string_views(r@);
        let mut line = if list.len() == 0 {
            "✓ ".to_owned()
        } else {
            "✗ ".to_owned()
        };
        line.append(job.id.as_str());
        line.append(" (");
        line.append(job.name.as_str());
        if list.len() == 0 {
            line.append(")");
        } else {
            line.append("):");
        }
        r.push(line);
        let ghost write = |issue: Seq<char>| "    - "@ + issue;
        let ghost head = before.push(line@);
        assert(string_views(r@) == head);
        let ghost earlier = errors;
        let mut k: usize = 0;
        assert(these.take(0).map_values(write) == Seq::<Seq<char>>::empty());
        assert(head + these.take(0).map_values(write) == head);
        while k < list.len()
            invariant
                k <= list@.len(),
                these == string_views(list@),
                write == (|issue: Seq<char>| "    - "@ + issue),
                errors == earlier + k,
                errors <= r@.len(),
                string_views(r@) == head + these.take(k as int).map_values(write),
            decreases list.len() - k,
        {
            let mut t = "    - ".to_owned();
            t.append(list[k].as_str());
            let ghost so_far = string_views(r@);
            r.push(t);
            proof {
                assert(string_views(r@) == so_far.push(t@));
                assert(these.take(k + 1).map_values(write) == these.take(k as int).map_values(
                    write,
                ).push(t@));
                assert(r@.len() == r.len());
            }
            errors += 1;
            k += 1;
        }
        proof {
            assert(these.take(k as int) == these);
            if these.len() == 0 {
                assert(these.map_values(write) == Seq::<Seq<char>>::empty());
                assert(head == before + seq![line@]);
            } else {
                assert(head + these.map_values(write) == before + (seq![line@] + these.map_values(
                    write,
                )));
            }
        }
        i += 1;
    }
    let ghost reports = string_views(r@);
    if orphaned.len() > 0 {
        let blank = String::new();
        r.push(blank);
        let mut head = "Orphaned timers (".to_owned();
        head.append(decimal_text(orphaned.len() as u64).as_str());
        head.append("):");
        r.push(head);
        let ghost start = seq![Seq::<char>::empty(), head@];
        let ghost write = |u: Seq<char>| orphan_line(u);
        let ghost earlier = errors;
        let mut k: usize = 0;
        proof {
            assert(blank@ == Seq::<char>::empty());
            assert(string_views(r@) == reports + start);
            assert(orphans.take(0).map_values(write) == Seq::<Seq<char>>::empty());
            assert(reports + start == reports + (start + orphans.take(0).map_values(write)));
        }
        while k < orphaned.len()
            invariant
                k <= orphaned@.len(),
                orphans == string_views(orphaned@),
                write == (|u: Seq<char>| orphan_line(u)),
                errors == earlier + k,
                errors <= r@.len(),
                string_views(r@) == reports + (start + orphans.take(k as int).map_values(write)),
            decreases orphaned.len() - k,
        {
            let mut t = "  ✗ ".to_owned();
            t.append(orphaned[k].as_str());
            t.append(" (not in jobs.json — run 'usched sync' to clean)");
            let ghost so_far = string_views(r@);
            r.push(t);
            proof {
                assert(string_views(r@) == so_far.push(t@));
                assert(orphans.take(k + 1).map_values(write) == orphans.take(k as int).map_values(
                    write,
                ).push(t@));
                assert(string_views(r@) == reports + (start + orphans.take(k + 1).map_values(
                    write,
                )));
                assert(r@.len() == r.len());
            }
            errors += 1;
            k += 1;
        }
        assert(orphans.take(k as int) == orphans);
    } else {
        assert(reports == reports + orphan_report(orphans));
    }
    let ghost body = string_views(r@);
    assert(body == reports + orphan_report(orphans));
    let blank = String::new();
    r.push(blank);
    let last = if errors == 0 {
        "All checks passed.".to_owned()
    } else {
        let mut t = decimal_text(errors as u64);
        t.append(" issue(s) found. Run 'usched sync' to fix timer issues.");
        t
    };
    r.push(last);
    proof {
        assert(blank@ == Seq::<char>::empty());
        assert(string_views(r@) == body + seq![Seq::<char>::empty(), last@]);
    }
    r
}

/// All checks pass where no job has anything wrong with it and no timer is orphaned, and
/// nowhere else.
pub proof fn law_all_checks_pass(
    jobs: Seq<JobView>,
    findings: Seq<FindingView>,
    orphans: Seq<Seq<char>>,
)
    requires
        jobs.len() > 0,
        jobs.len() == findings.len(),
    ensures
        check_report(jobs, findings, orphans).last() == "All checks passed."@ <==> orphans.len()
            == 0 && forall|i: int|
            0 <= i < jobs.len() ==> issues(
                #[trigger] jobs[i],
                findings[i],
                name_count(jobs, jobs[i].name) as int,
            ).len() == 0,
{
    lemma_no_issues(jobs, findings, jobs.len() as int);
    let errors = issue_count(jobs, findings, jobs.len() as int) + orphans.len();
    assert(check_report(jobs, findings, orphans).last() == verdict(errors));
    if errors != 0 {
        reveal_strlit("All checks passed.");
        reveal_strlit(" issue(s) found. Run 'usched sync' to fix timer issues.");
        lemma_decimal_reads_back(errors);
        assert(is_digit(decimal(errors)[0]));
        assert(verdict(errors)[0] == decimal(errors)[0]);
    }
}

proof fn lemma_no_issues(jobs: Seq<JobView>, findings: Seq<FindingView>, n: int)
    requires
        0 <= n <= jobs.len(),
    ensures
        issue_count(jobs, findings, n) >= 0,
        issue_count(jobs, findings, n) == 0 <==> forall|i: int|
            0 <= i < n ==> issues(
                #[trigger] jobs[i],
                findings[i],
                name_count(jobs, jobs[i].name) as int,
            ).len() == 0,
    decreases n,
{
    if n > 0 {
        lemma_no_issues(jobs, findings, n - 1);
        let job = jobs[n - 1];
        assert(issue_count(jobs, findings, n) == issue_count(jobs, findings, n - 1) + issues(
            job,
            findings[n - 1],
            name_count(jobs, job.name) as int,
        ).len());
    }
}

/// What is wrong with a job is told: a program that is not in the search path; a timer that is
/// not healthy, or is not recorded, unless the job has fired already; and a name that other jobs
/// have too.
pub proof fn law_issues_are_told(job: JobView, f: FindingView, count: int)
    ensures
        ({
            let e = Seq::<Seq<char>>::empty();
            let fired = job.schedule matches ScheduleView::Once { at, .. } && (at.secs < f.now.secs
                || (at.secs == f.now.secs && at.nanos <= f.now.nanos));
            let unit = match job.schedule {
                ScheduleView::Once { unit, .. } => unit,
                ScheduleView::Cron { unit, .. } => unit,
            };
            issues(job, f, count) == (if job.command.len() > 0 && !f.command_found {
                seq!["command '"@ + job.command[0] + "' not found in PATH"@]
            } else {
                e
            }) + (if fired {
                e
            } else {
                match unit {
                    None => seq!["no systemd unit recorded"@],
                    Some(h) => if f.healthy {
                        e
                    } else {
                        seq!["timer '"@ + h + "' not enabled/healthy"@]
                    },
                }
            }) + (if count > 1 {
                seq!["duplicate name '"@ + job.name + "' ("@ + decimal(count) + " jobs)"@]
            } else {
                e
            })
        }),
{
    let items = issue_items(job, f, count);
    let a = seq![items[0]];
    let b = seq![items[1]];
    let c = seq![items[2]];
    assert(items == a + b + c);
    law_those_whose_condition_holds(a, b, items[0].1);
    law_those_whose_condition_holds(a + b, c, items[1].1);
    law_those_whose_condition_holds(a, b, items[2].1);
    assert(those(a) == if items[0].0 {
        seq![items[0].1]
    } else {
        Seq::empty()
    });
    assert(those(b) == if items[1].0 {
        seq![items[1].1]
    } else {
        Seq::empty()
    });
    assert(those(c) == if items[2].0 {
        seq![items[2].1]
    } else {
        Seq::empty()
    });
}

/// The jobs with a name are counted one by one, wherever they stand.
pub proof fn law_names_are_counted(a: Seq<JobView>, b: Seq<JobView>, job: JobView, name: Seq<char>)
    ensures
        name_count(a + b, name) == name_count(a, name) + name_count(b, name),
        job.name == name ==> name_count(seq![job], name) == 1,
        job.name != name ==> name_count(seq![job], name) == 0,
    decreases b.len(),
{
    reveal_with_fuel(name_count, 2);
    assert(seq![job].drop_last() == Seq::<JobView>::empty());
    if b.len() == 0 {
        assert(a + b == a);
    } else {
        law_names_are_counted(a, b.drop_last(), job, name);
        assert((a + b).drop_last() == a + b.drop_last());
        assert((a + b).last() == b.last());
    }
}

/// The units of two lists of jobs are those of both; a job has the one that is recorded for it,
/// or none.
pub proof fn law_units_are_those_recorded(a: Seq<JobView>, b: Seq<JobView>, job: JobView)
    ensures
        units_of(a + b) == units_of(a) + units_of(b),
        units_of(seq![job]) == match job.schedule {
            ScheduleView::Once { unit: Some(h), .. } => seq![h],
            ScheduleView::Cron { unit: Some(h), .. } => seq![h],
            _ => Seq::<Seq<char>>::empty(),
        },
    decreases b.len(),
{
    reveal_with_fuel(units_of, 2);
    assert(seq![job].drop_last() == Seq::<JobView>::empty());
    if let Some(h) = job.schedule.handle() {
        assert(Seq::<Seq<char>>::empty().push(h) == seq![h]);
    }
    if b.len() == 0 {
        assert(a + b == a);
        assert(units_of(a) + units_of(b) == units_of(a));
    } else {
        law_units_are_those_recorded(a, b.drop_last(), job);
        assert((a + b).drop_last() == a + b.drop_last());
        assert((a + b).last() == b.last());
        if let Some(h) = b.last().schedule.handle() {
            assert((units_of(a) + units_of(b.drop_last())).push(h) == units_of(a) + units_of(
                b.drop_last(),
            ).push(h));
        }
    }
}

/// A job with nothing wrong has a line with a tick; any other has one with a cross, and one more
/// for each thing that is wrong.
pub proof fn law_job_report_has_every_issue(job: JobView, found: Seq<Seq<char>>, i: int)
    ensures
        found.len() == 0 ==> job_report(job, found) == seq![
            "✓ "@ + job.id + " ("@ + job.name + ")"@,
        ],
        found.len() > 0 ==> job_report(job, found).len() == found.len() + 1 && job_report(
            job,
            found,
        )[0] == "✗ "@ + job.id + " ("@ + job.name + "):"@,
        0 <= i < found.len() ==> job_report(job, found)[i + 1] == "    - "@ + found[i],
{
}

/// A check tells of every job: of each what is wrong with it, where its name is counted among
/// all jobs.
pub proof fn law_check_tells_of_every_job(
    jobs: Seq<JobView>,
    findings: Seq<FindingView>,
    orphans: Seq<Seq<char>>,
    i: int,
)
    requires
        0 <= i < jobs.len(),
        jobs.len() == findings.len(),
    ensures
        ({
            let lines = check_report(jobs, findings, orphans);
            let told = job_report(
                jobs[i],
                issues(jobs[i], findings[i], name_count(jobs, jobs[i].name) as int),
            );
            exists|k: int|
                0 <= k && k + told.len() <= lines.len() && #[trigger] lines.subrange(
                    k,
                    k + told.len(),
                ) == told
        }),
{
    let n = jobs.len() as int;
    let reports = job_reports(jobs, findings, n);
    let lines = check_report(jobs, findings, orphans);
    let told = job_report(
        jobs[i],
        issues(jobs[i], findings[i], name_count(jobs, jobs[i].name) as int),
    );
    let k = lemma_report_within(jobs, findings, n, i);
    assert(lines.subrange(k, k + told.len()) == reports.subrange(k, k + told.len()));
}

proof fn lemma_report_within(jobs: Seq<JobView>, findings: Seq<FindingView>, n: int, i: int) -> (k:
    int)
    requires
        0 <= i < n <= jobs.len(),
        jobs.len() == findings.len(),
    ensures
        ({
            let told = job_report(
                jobs[i],
                issues(jobs[i], findings[i], name_count(jobs, jobs[i].name) as int),
            );
            let reports = job_reports(jobs, findings, n);
            0 <= k && k + told.len() <= reports.len() && reports.subrange(k, k + told.len()) == told
        }),
    decreases n,
{
    let told = job_report(
        jobs[i],
        issues(jobs[i], findings[i], name_count(jobs, jobs[i].name) as int),
    );
    let reports = job_reports(jobs, findings, n);
    let before = job_reports(jobs, findings, n - 1);
    if i == n - 1 {
        let k = before.len() as int;
        assert(reports == before + told);
        assert(reports.subrange(k, k + told.len()) == told);
        k
    } else {
        let k = lemma_report_within(jobs, findings, n - 1, i);
        assert(reports.subrange(k, k + told.len()) == before.subrange(k, k + told.len()));
        k
    }
}

/// The last line tells that nothing is wrong, or how many things are, with jobs and with
/// orphaned timers together. Each orphaned timer is named.
pub proof fn law_last_line_counts_what_is_wrong(
    jobs: Seq<JobView>,
    findings: Seq<FindingView>,
    orphans: Seq<Seq<char>>,
    i: int,
)
    ensures
        jobs.len() == 0 ==> check_report(jobs, findings, orphans) == seq!["No jobs configured."@],
        jobs.len() > 0 ==> {
            let lines = check_report(jobs, findings, orphans);
            let wrong = issue_count(jobs, findings, jobs.len() as int) + orphans.len();
            &&& wrong == 0 ==> lines.last() == "All checks passed."@
            &&& wrong != 0 ==> lines.last() == decimal(wrong)
                + " issue(s) found. Run 'usched sync' to fix timer issues."@
            &&& orphans.len() > 0 ==> lines.contains(
                "Orphaned timers ("@ + decimal(orphans.len() as int) + "):"@,
            )
            &&& 0 <= i < orphans.len() ==> lines.contains(
                "  ✗ "@ + orphans[i] + " (not in jobs.json — run 'usched sync' to clean)"@,
            )
        },
{
    if jobs.len() > 0 {
        let lines = check_report(jobs, findings, orphans);
        let n = job_reports(jobs, findings, jobs.len() as int).len() as int;
        if orphans.len() > 0 {
            assert(lines[n + 1] == "Orphaned timers ("@ + decimal(orphans.len() as int) + "):"@);
        }
        if 0 <= i < orphans.len() {
            assert(lines[n + 2 + i] == orphan_line(orphans[i]));
        }
    }
}

/// The things that are wrong are counted job by job.
pub proof fn law_issues_are_counted(jobs: Seq<JobView>, findings: Seq<FindingView>, n: int)
    requires
        0 <= n < jobs.len(),
    ensures
        issue_count(jobs, findings, 0) == 0,
        issue_count(jobs, findings, n + 1) == issue_count(jobs, findings, n) + issues(
            jobs[n],
            findings[n],
            name_count(jobs, jobs[n].name) as int,
        ).len(),
{
}

/// What is found of a job is seen as it was found.
pub proof fn law_finding_is_seen_as_found(f: Finding)
    ensures
        f@.command_found == f.command_found,
        f@.now == f.now,
        f@.healthy == f.report.healthy(),
{
}

} // verus!

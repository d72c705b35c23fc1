//! The timers of all jobs put right: missing ones are made anew, and those that no job is
//! recorded for are removed.
use crate::check::{known_units, law_units_are_known, units_of};
use crate::cron_convert::CronError;
use crate::job::{Job, JobView, ScheduleView};
use crate::moment::Timestamp;
use crate::number::{decimal, decimal_text};
use crate::store::{ids, job_views, law_listing_names_each_job_once, lemma_stored_job, JobStore};
use crate::systemd::{
    can_schedule, creates_timer, find_orphaned_timers, law_known_units_are_no_orphans, orphans,
    plan_result, recreate_timer, remove_steps, remove_timer, step_views, timer_is_legacy,
    unit_name, unit_of, verify_timer, Plan, Step, TimerReport, UnitEnv,
};
use crate::text::{has_text, string_views};
use vstd::prelude::*;

verus! {

/// What is found of the unit of a job.
#[derive(Debug)]
pub struct UnitFound {
    pub report: TimerReport,
    /// The service file, where it can be read.
    pub service: Option<String>,
}

#[verifier::ext_equal]
pub struct UnitFoundView {
    pub healthy: bool,
    pub legacy: bool,
}

impl View for UnitFound {
    type V = UnitFoundView;

    open spec fn view(&self) -> UnitFoundView {
        UnitFoundView {
            healthy: self.report.healthy(),
            legacy: self.service matches Some(c) && !has_text(c@, "__run-job"@),
        }
    }
}

/// Why the timer of a job is to be made anew, if it is.
pub open spec fn rewrite_reason(job: JobView, found: UnitFoundView) -> Option<Seq<char>> {
    if !(job.schedule.handle() matches Some(h) && h.len() > 0) {
        Some("no unit recorded"@)
    } else if !found.healthy {
        Some("missing timer"@)
    } else if found.legacy {
        Some("legacy ExecStart format"@)
    } else {
        None
    }
}

/// Why the timer of a job is to be made anew, if it is.
pub fn needs_rewrite(job: &Job, found: &UnitFound) -> (r: Option<&'static str>)
    ensures
        r is Some <==> rewrite_reason(job@, found@) is Some,
        r matches Some(t) ==> rewrite_reason(job@, found@) == Some(t@),
{
    let recorded = match job.schedule.handle() {
        Some(h) => !h.is_empty(),
        None => false,
    };
    let service = match &found.service {
        Some(c) => Some(c.as_str()),
        None => None,
    };
    if !recorded {
        Some("no unit recorded")
    } else if !verify_timer(&found.report) {
        Some("missing timer")
    } else if timer_is_legacy(service) {
        Some("legacy ExecStart format")
    } else {
        None
    }
}

/// Where the first part of a synchronisation stands: the jobs as they are kept, those still
/// to be looked at, and how many were made anew, in order and skipped.
#[verifier::ext_equal]
pub struct SyncView {
    pub jobs: Map<Seq<char>, JobView>,
    pub todo: Seq<JobView>,
    pub fixed: int,
    pub ok: int,
    pub skipped: int,
}

impl SyncView {
    /// Whether the timer of the next job is to be made anew.
    pub open spec fn head_needs_rewrite(self, now: Timestamp, found: UnitFoundView) -> bool {
        self.todo.len() > 0 && !self.todo[0].schedule.already_fired(now) && rewrite_reason(
            self.todo[0],
            found,
        ) is Some
    }

    /// What follows where the timer of the next job is left as it is.
    pub open spec fn passed_over(self, now: Timestamp) -> SyncView {
        let rest = SyncView { todo: self.todo.skip(1), ..self };
        if self.todo[0].schedule.already_fired(now) {
            SyncView { skipped: self.skipped + 1, ..rest }
        } else {
            SyncView { ok: self.ok + 1, ..rest }
        }
    }

    /// What follows where the timer of the next job was made anew, or that failed.
    pub open spec fn rewritten(self, done: bool) -> SyncView {
        let rest = SyncView { todo: self.todo.skip(1), ..self };
        let id = self.todo[0].id;
        if !done {
            rest
        } else if self.jobs.contains_key(id) {
            let job = self.jobs[id];
            SyncView {
                jobs: self.jobs.insert(
                    id,
                    JobView { schedule: job.schedule.with_handle(unit_of(id)), ..job },
                ),
                fixed: self.fixed + 1,
                ..rest
            }
        } else {
            SyncView { fixed: self.fixed + 1, ..rest }
        }
    }

    /// What follows the next job: it is looked at at an instant, its unit is found so, and
    /// its timer can be made anew or not.
    pub open spec fn after(self, now: Timestamp, found: UnitFoundView, done: bool) -> SyncView {
        if self.head_needs_rewrite(now, found) {
            self.rewritten(done)
        } else {
            self.passed_over(now)
        }
    }

    /// Where the first part ends.
    pub open spec fn after_all(self, events: Seq<(Timestamp, UnitFoundView, bool)>) -> SyncView
        decreases self.todo.len(),
    {
        if self.todo.len() == 0 {
            self
        } else {
            self.after(events[0].0, events[0].1, events[0].2).after_all(events.skip(1))
        }
    }

    /// The jobs still to be looked at are kept under their IDs as they are, each once.
    pub open spec fn in_order(self) -> bool {
        &&& ids(self.todo).no_duplicates()
        &&& forall|i: int|
            0 <= i < self.todo.len() ==> self.jobs.contains_key((#[trigger] self.todo[i]).id)
                && self.jobs[self.todo[i].id] == self.todo[i]
    }
}

/// A synchronisation under way.
#[derive(Debug)]
pub struct TimerSync {
    pub store: JobStore,
    /// The jobs as they were at the start, and how many of them have been looked at.
    pub jobs: Vec<Job>,
    pub next: usize,
    pub fixed: usize,
    pub ok: usize,
    pub skipped: usize,
    pub orphans_cleaned: usize,
}

/// What is to be done about a job.
#[derive(Debug)]
pub enum SyncAction {
    /// Nothing: there are no more jobs.
    Done,
    /// Nothing: the timer is in order, or has fired.
    Passed,
    /// Say this, carry out the plan where there is one, and tell the synchronisation what
    /// became of it.
    Rewrite { message: String, plan: Result<Plan, CronError> },
}

/// A timer to remove: say this, and take these steps.
#[derive(Debug)]
pub struct Cleaning {
    pub unit: String,
    pub message: String,
    pub steps: Vec<Step>,
}

pub open spec fn owned_views(jobs: Seq<Job>) -> Seq<JobView> {
    jobs.map_values(|j: Job| j@)
}

impl View for TimerSync {
    type V = SyncView;

    open spec fn view(&self) -> SyncView {
        SyncView {
            jobs: self.store@,
            todo: owned_views(self.jobs@).skip(self.next as int),
            fixed: self.fixed as int,
            ok: self.ok as int,
            skipped: self.skipped as int,
        }
    }
}

impl TimerSync {
    pub open spec fn wf(self) -> bool {
        &&& self.store.wf()
        &&& self.store.jobs_wf()
        &&& forall|i: int| 0 <= i < self.jobs@.len() ==> (#[trigger] self.jobs@[i])@.wf()
        &&& self.next <= self.jobs@.len()
        &&& self.fixed + self.ok + self.skipped <= self.next
    }

    /// A synchronisation of all jobs, the oldest first.
    pub fn start(store: JobStore) -> (r: TimerSync)
        requires
            store.wf(),
            store.jobs_wf(),
        ensures
            r.wf(),
            r.store == store,
            r.orphans_cleaned == 0,
            r@ == (SyncView { jobs: store@, todo: store.listed(), fixed: 0, ok: 0, skipped: 0 }),
            store.keyed_by_id() ==> r@.in_order(),
    {
        let mut jobs: Vec<Job> = Vec::new();
        let list = store.list();
        let ghost listed = store.listed();
        let mut i: usize = 0;
        while i < list.len()
            invariant
                i <= list@.len(),
                listed == job_views(list@),
                jobs@.len() == i,
                forall|j: int| 0 <= j < list@.len() ==> (#[trigger] list@[j])@.wf(),
                forall|j: int| 0 <= j < i ==> (#[trigger] jobs@[j])@ == listed[j] && jobs@[j]@.wf(),
            decreases list.len() - i,
        {
            assert(list@[i as int]@.wf());
            jobs.push(list[i].clone());
            i += 1;
        }
        let r = TimerSync { store, jobs, next: 0, fixed: 0, ok: 0, skipped: 0, orphans_cleaned: 0 };
        proof {
            assert(r@.todo == listed);
            if store.keyed_by_id() {
                law_listing_names_each_job_once(store);
            }
        }
        r
    }

    /// The next job to be looked at.
    pub fn next_job(&self) -> (r: Option<&Job>)
        requires
            self.wf(),
        ensures
            r is Some <==> self@.todo.len() > 0,
            r matches Some(job) ==> job@ == self@.todo[0],
    {
        if self.next < self.jobs.len() {
            Some(&self.jobs[self.next])
        } else {
            None
        }
    }

    /// Look at the next job, at an instant, with what is found of its unit. A job whose timer
    /// is to be made anew stays the next one until `record` is told what became of it.
    pub fn step(&mut self, now: Timestamp, found: &UnitFound, env: &UnitEnv) -> (r: SyncAction)
        requires
            old(self).wf(),
            old(self)@.head_needs_rewrite(now, found@) ==> can_schedule(
                old(self)@.todo[0].schedule,
            ),
        ensures
            final(self).wf(),
            final(self).orphans_cleaned == old(self).orphans_cleaned,
            final(self).store == old(self).store,
            r is Done <==> old(self)@.todo.len() == 0,
            r is Rewrite <==> old(self)@.head_needs_rewrite(now, found@),
            r is Done || r is Rewrite ==> *final(self) == *old(self),
            r is Passed ==> final(self)@ == old(self)@.passed_over(now),
            r matches SyncAction::Rewrite { message, plan } ==> message@
                == "Rewriting timer for '"@ + old(self)@.todo[0].id + "' ("@ + rewrite_reason(
                old(self)@.todo[0],
                found@,
            )->0 + ")..."@ && creates_timer(plan_result(plan), old(self)@.todo[0], env@),
    {
        if self.next >= self.jobs.len() {
            return SyncAction::Done;
        }
        let ghost before = self@;
        let ghost all = owned_views(self.jobs@);
        let job = &self.jobs[self.next];
        proof {
            assert(before.todo[0] == job@);
            assert(before.todo.skip(1) == all.skip(self.next + 1));
            assert(self.jobs@[self.next as int]@.wf());
        }
        if job.schedule.already_fired(now) {
            self.skipped += 1;
            self.next += 1;
            return SyncAction::Passed;
        }
        match needs_rewrite(job, found) {
            None => {
                self.ok += 1;
                self.next += 1;
                SyncAction::Passed
            },
            Some(reason) => {
                let mut message = "Rewriting timer for '".to_owned();
                message.append(job.id.as_str());
                message.append("' (");
                message.append(reason);
                message.append(")...");
                let plan = recreate_timer(job, env);
                SyncAction::Rewrite { message, plan }
            },
        }
    }

    /// Record what became of the timer of the next job, and say it.
    pub fn record(&mut self, outcome: Result<(), &str>) -> (r: String)
        requires
            old(self).wf(),
            old(self)@.todo.len() > 0,
        ensures
            final(self).wf(),
            final(self).orphans_cleaned == old(self).orphans_cleaned,
            final(self)@ == old(self)@.rewritten(outcome is Ok),
            r@ == match outcome {
                Ok(_) => "  Wrote: "@ + unit_of(old(self)@.todo[0].id),
                Err(e) => "  Failed to recreate timer for '"@ + old(self)@.todo[0].id + "': "@ + e@,
            },
            old(self).store.keyed_by_id() ==> final(self).store.keyed_by_id(),
    {
        let ghost before = self@;
        let ghost all = owned_views(self.jobs@);
        proof {
            assert(before.todo.len() == all.len() - self.next);
            assert(self.next < self.jobs.len());
            assert(before.todo[0] == self.jobs@[self.next as int]@);
            assert(before.todo.skip(1) == all.skip(self.next + 1));
        }
        let id = self.jobs[self.next].id.clone();
        self.next += 1;
        match outcome {
            Ok(_) => {
                let unit = unit_name(id.as_str());
                let mut message = "  Wrote: ".to_owned();
                message.append(unit.as_str());
                proof {
                    if self.store@.contains_key(id@) {
                        lemma_stored_job(self.store, id@);
                    }
                }
                if let Some(job) = self.store.get_mut(id.as_str()) {
                    job.schedule.set_handle(unit);
                }
                self.fixed += 1;
                message
            },
            Err(e) => {
                let mut message = "  Failed to recreate timer for '".to_owned();
                message.append(id.as_str());
                message.append("': ");
                message.append(e);
                message
            },
        }
    }

    /// The timers to remove, among the files in the directory of units: those of jobs that no
    /// job is recorded for, now that missing timers have been made anew.
    pub fn clean(&mut self, names: &Vec<String>, systemd_dir: &str) -> (r: Vec<Cleaning>)
        requires
            old(self).orphans_cleaned == 0,
        ensures
            final(self)@ == old(self)@,
            final(self).store == old(self).store,
            old(self).wf() ==> final(self).wf(),
            final(self).orphans_cleaned == r@.len(),
            r@.map_values(|c: Cleaning| c.unit@) == orphans(
                string_views(names@),
                units_of(old(self).store.listed()),
            ),
            forall|i: int|
                0 <= i < r@.len() ==> (#[trigger] r@[i]).message@ == "Cleaning orphaned timer: "@
                    + r@[i].unit@ && step_views(r@[i].steps@) == remove_steps(
                    r@[i].unit@,
                    systemd_dir@,
                ),
    {
        let list = self.store.list();
        let known = known_units(&list);
        let found = find_orphaned_timers(names, &known);
        let mut r: Vec<Cleaning> = Vec::new();
        let mut i: usize = 0;
        while i < found.len()
            invariant
                i <= found@.len(),
                r@.len() == i,
                forall|j: int|
                    0 <= j < i ==> (#[trigger] r@[j]).unit@ == found@[j]@ && r@[j].message@
                        == "Cleaning orphaned timer: "@ + r@[j].unit@ && step_views(r@[j].steps@)
                        == remove_steps(r@[j].unit@, systemd_dir@),
            decreases found.len() - i,
        {
            let unit = found[i].clone();
            let mut message = "Cleaning orphaned timer: ".to_owned();
            message.append(unit.as_str());
            let steps = remove_timer(unit.as_str(), systemd_dir);
            r.push(Cleaning { unit, message, steps });
            i += 1;
        }
        self.orphans_cleaned = r.len();
        assert(r@.map_values(|c: Cleaning| c.unit@) == string_views(found@));
        r
    }

    /// What to say in the end.
    pub fn summary(&self) -> (r: String)
        ensures
            r@ == "Sync complete: "@ + decimal(self.ok as int) + " ok, "@ + decimal(
                self.fixed as int,
            ) + " fixed, "@ + decimal(self.orphans_cleaned as int) + " orphans cleaned, "@
                + decimal(self.skipped as int) + " skipped (already-fired one-offs)"@,
    {
        let mut r = "Sync complete: ".to_owned();
        r.append(decimal_text(self.ok as u64).as_str());
        r.append(" ok, ");
        r.append(decimal_text(self.fixed as u64).as_str());
        r.append(" fixed, ");
        r.append(decimal_text(self.orphans_cleaned as u64).as_str());
        r.append(" orphans cleaned, ");
        r.append(decimal_text(self.skipped as u64).as_str());
        r.append(" skipped (already-fired one-offs)");
        r
    }
}

/// The timer of a job that is kept is never removed as an orphan.
pub proof fn law_recorded_timers_stay(store: JobStore, names: Seq<Seq<char>>, i: int)
    requires
        0 <= i < store.listed().len(),
        store.listed()[i].schedule.handle() is Some,
    ensures
        !orphans(names, units_of(store.listed())).contains(
            store.listed()[i].schedule.handle()->0,
        ),
{
    let known = units_of(store.listed());
    law_units_are_known(store.listed(), i);
    law_known_units_are_no_orphans(names, known);
    let o = orphans(names, known);
    if o.contains(store.listed()[i].schedule.handle()->0) {
        let k = choose|k: int| 0 <= k < o.len() && o[k] == store.listed()[i].schedule.handle()->0;
        assert(!known.contains(o[k]));
    }
}

proof fn lemma_one_step(v: SyncView, now: Timestamp, found: UnitFoundView, done: bool)
    requires
        v.in_order(),
        v.todo.len() > 0,
    ensures
        v.after(now, found, done).in_order(),
        v.after(now, found, done).todo == v.todo.skip(1),
        done ==> v.after(now, found, done).fixed + v.after(now, found, done).ok + v.after(
            now,
            found,
            done,
        ).skipped == v.fixed + v.ok + v.skipped + 1,
{
    let n = v.after(now, found, done);
    assert(n.todo == v.todo.skip(1));
    assert forall|i: int, j: int| 0 <= i < n.todo.len() && 0 <= j < n.todo.len() && i
        != j implies ids(n.todo)[i] != ids(n.todo)[j] by {
        assert(ids(v.todo)[i + 1] != ids(v.todo)[j + 1]);
    }
    assert forall|i: int| 0 <= i < n.todo.len() implies n.jobs.contains_key(
        (#[trigger] n.todo[i]).id,
    ) && n.jobs[n.todo[i].id] == n.todo[i] by {
        assert(n.todo[i] == v.todo[i + 1]);
        assert(ids(v.todo)[i + 1] != ids(v.todo)[0]);
    }
}

/// Where every timer that is asked for can be made, every job is counted once, as in order,
/// made anew or skipped, and in the end has a unit recorded unless it was skipped.
pub proof fn law_every_job_gets_its_timer(
    v: SyncView,
    events: Seq<(Timestamp, UnitFoundView, bool)>,
    i: int,
)
    requires
        v.in_order(),
        events.len() == v.todo.len(),
        forall|j: int| 0 <= j < events.len() ==> (#[trigger] events[j]).2,
        0 <= i < v.todo.len(),
    ensures
        v.after_all(events).fixed + v.after_all(events).ok + v.after_all(events).skipped == v.fixed
            + v.ok + v.skipped + v.todo.len(),
        v.after_all(events).jobs.contains_key(v.todo[i].id),
        v.todo[i].schedule.already_fired(events[i].0) || v.after_all(
            events,
        ).jobs[v.todo[i].id].schedule.handle() is Some,
    decreases v.todo.len(),
{
    let n = v.after(events[0].0, events[0].1, events[0].2);
    let rest = events.skip(1);
    lemma_one_step(v, events[0].0, events[0].1, events[0].2);
    assert(forall|j: int| 0 <= j < rest.len() ==> #[trigger] rest[j] == events[j + 1]);
    lemma_sync_count(n, rest);
    if i > 0 {
        assert(n.todo[i - 1] == v.todo[i]);
        law_every_job_gets_its_timer(n, rest, i - 1);
    } else {
        let id = v.todo[0].id;
        assert(v.jobs.contains_key(id) && v.jobs[id] == v.todo[0]);
        assert forall|j: int| 0 <= j < n.todo.len() implies (#[trigger] n.todo[j]).id != id by {
            assert(ids(v.todo)[j + 1] != ids(v.todo)[0]);
        }
        lemma_looked_at_stays(n, rest, id);
    }
}

proof fn lemma_sync_count(v: SyncView, events: Seq<(Timestamp, UnitFoundView, bool)>)
    requires
        v.in_order(),
        events.len() == v.todo.len(),
        forall|j: int| 0 <= j < events.len() ==> (#[trigger] events[j]).2,
    ensures
        v.after_all(events).fixed + v.after_all(events).ok + v.after_all(events).skipped == v.fixed
            + v.ok + v.skipped + v.todo.len(),
    decreases v.todo.len(),
{
    if v.todo.len() > 0 {
        let rest = events.skip(1);
        lemma_one_step(v, events[0].0, events[0].1, events[0].2);
        assert(forall|j: int| 0 <= j < rest.len() ==> #[trigger] rest[j] == events[j + 1]);
        lemma_sync_count(v.after(events[0].0, events[0].1, events[0].2), rest);
    }
}

/// A job that is no longer to be looked at stays as it is.
proof fn lemma_looked_at_stays(
    v: SyncView,
    events: Seq<(Timestamp, UnitFoundView, bool)>,
    id: Seq<char>,
)
    requires
        v.in_order(),
        events.len() == v.todo.len(),
        v.jobs.contains_key(id),
        forall|j: int| 0 <= j < v.todo.len() ==> (#[trigger] v.todo[j]).id != id,
    ensures
        v.after_all(events).jobs.contains_key(id),
        v.after_all(events).jobs[id] == v.jobs[id],
    decreases v.todo.len(),
{
    if v.todo.len() > 0 {
        let n = v.after(events[0].0, events[0].1, events[0].2);
        lemma_one_step(v, events[0].0, events[0].1, events[0].2);
        assert(v.todo[0].id != id);
        assert forall|j: int| 0 <= j < n.todo.len() implies (#[trigger] n.todo[j]).id != id by {
            assert(n.todo[j] == v.todo[j + 1]);
        }
        lemma_looked_at_stays(n, events.skip(1), id);
    }
}

/// A timer is made anew where no unit is recorded for the job, where it is not healthy, or where
/// its service starts the job as older versions did; for the first of these that holds.
pub proof fn law_timers_are_rewritten_for_cause(job: JobView, found: UnitFoundView)
    ensures
        ({
            let unit = match job.schedule {
                ScheduleView::Once { unit, .. } => unit,
                ScheduleView::Cron { unit, .. } => unit,
            };
            let recorded = unit matches Some(h) && h.len() > 0;
            &&& !recorded ==> rewrite_reason(job, found) == Some("no unit recorded"@)
            &&& recorded && !found.healthy ==> rewrite_reason(job, found) == Some(
                "missing timer"@,
            )
            &&& recorded && found.healthy && found.legacy ==> rewrite_reason(job, found) == Some(
                "legacy ExecStart format"@,
            )
            &&& recorded && found.healthy && !found.legacy ==> rewrite_reason(job, found) is None
        }),
{
}

/// A unit is found healthy where its timer is, and in an older form where its service can be
/// read and does not run the job by its ID.
pub proof fn law_unit_is_seen_as_found(found: UnitFound)
    ensures
        found@.healthy == found.report.healthy(),
        found.service is None ==> !found@.legacy,
        found.service matches Some(c) ==> (found@.legacy <==> !has_text(c@, "__run-job"@)),
{
}

/// Each job is looked at once and counted under one heading: one that has fired as skipped, one
/// whose timer is in order as that, and one whose timer was made anew as fixed, with its unit
/// recorded. A timer that could not be made counts nowhere. No other job changes.
pub proof fn law_each_job_is_synchronised(
    v: SyncView,
    now: Timestamp,
    found: UnitFoundView,
    done: bool,
    other: Seq<char>,
)
    requires
        v.in_order(),
        v.todo.len() > 0,
    ensures
        ({
            let job = v.todo[0];
            let n = v.after(now, found, done);
            let fired = job.schedule matches ScheduleView::Once { at, .. } && (at.secs < now.secs
                || (at.secs == now.secs && at.nanos <= now.nanos));
            &&& n.todo == v.todo.skip(1)
            &&& fired ==> n.jobs == v.jobs && n.skipped == v.skipped + 1 && n.ok == v.ok && n.fixed
                == v.fixed
            &&& !fired && rewrite_reason(job, found) is None ==> n.jobs == v.jobs && n.ok == v.ok
                + 1 && n.skipped == v.skipped && n.fixed == v.fixed
            &&& !fired && rewrite_reason(job, found) is Some ==> n.ok == v.ok && n.skipped
                == v.skipped && n.fixed == v.fixed + if done {
                1int
            } else {
                0int
            }
            &&& !fired && rewrite_reason(job, found) is Some && !done ==> n.jobs == v.jobs
            &&& !fired && rewrite_reason(job, found) is Some && done ==> {
                let new = n.jobs[job.id];
                &&& n.jobs.contains_key(job.id)
                &&& new.schedule == match job.schedule {
                    ScheduleView::Once { at, at_job, .. } => ScheduleView::Once {
                        at,
                        unit: Some("usched-"@ + job.id),
                        at_job,
                    },
                    ScheduleView::Cron { expr, .. } => ScheduleView::Cron {
                        expr,
                        unit: Some("usched-"@ + job.id),
                    },
                }
                &&& new.id == job.id && new.name == job.name && new.command == job.command
                &&& new.constraints == job.constraints && new.enabled == job.enabled
                &&& new.created_at == job.created_at && new.created_by == job.created_by
            }
            &&& other != job.id ==> n.jobs.contains_key(other) == v.jobs.contains_key(other) && (
            v.jobs.contains_key(other) ==> n.jobs[other] == v.jobs[other])
        }),
{
    assert(v.jobs.contains_key(v.todo[0].id) && v.jobs[v.todo[0].id] == v.todo[0]);
}

} // verus!

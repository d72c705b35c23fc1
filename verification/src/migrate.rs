//! The move of jobs that fire once from the queue of at(1) to systemd timers.
//!
//! Older versions kept the number of a job in that queue beside its schedule. Each job that
//! still has such a number and no timer is given one, and the number is dropped; a job whose
//! time has passed is dropped itself. Other jobs are left alone, so that a second migration
//! finds nothing to do.
use crate::backend::Backend;
use crate::job::{JobView, Schedule, ScheduleView};
use crate::moment::{civil_text, utc_text, Pattern, Timestamp};
use crate::number::{decimal, decimal_text};
use crate::store::{ids, job_views, law_listing_names_each_job_once, lemma_stored_job, JobStore};
use crate::systemd::{is_oneshot_plan, unit_name, unit_of, Plan, UnitEnv};
use crate::text::{same, string_views, trim, trimmed};
use vstd::prelude::*;

verus! {

/// A job that is in the queue of at(1) and has no timer.
pub open spec fn is_legacy(job: JobView) -> bool {
    job.schedule matches ScheduleView::Once { unit, at_job, .. } && unit is None && at_job is Some
}

/// When a job that fires once does so.
pub open spec fn fire_time(job: JobView) -> Timestamp {
    job.schedule->Once_at
}

/// The number of a job in the queue.
pub open spec fn queue_number(job: JobView) -> Seq<char> {
    job.schedule->at_job->0
}

/// The job with a timer in place of its number in the queue.
pub open spec fn moved(job: JobView, unit: Seq<char>) -> JobView {
    JobView {
        schedule: match job.schedule {
            ScheduleView::Once { at, .. } => ScheduleView::Once {
                at,
                unit: Some(unit),
                at_job: None,
            },
            s => s,
        },
        ..job
    }
}

/// Where a migration stands: the jobs, the IDs of those still to be looked at, and how many
/// have been moved, dropped and left alone.
#[verifier::ext_equal]
pub struct MigrationView {
    pub jobs: Map<Seq<char>, JobView>,
    pub todo: Seq<Seq<char>>,
    pub migrated: int,
    pub dropped: int,
    pub kept: int,
}

impl MigrationView {
    /// The next job to be looked at, unless it is gone.
    pub open spec fn head(self) -> Option<JobView> {
        if self.jobs.contains_key(self.todo[0]) {
            Some(self.jobs[self.todo[0]])
        } else {
            None
        }
    }

    /// Whether the next job is to be given a timer.
    pub open spec fn head_is_due_later(self, now: Timestamp) -> bool {
        self.todo.len() > 0 && (self.head() matches Some(job) && is_legacy(job) && !fire_time(
            job,
        ).spec_le(now))
    }

    /// Whether the next job is to be left alone, at any instant.
    pub open spec fn head_is_left_alone(self) -> bool {
        self.head() matches Some(job) && !is_legacy(job)
    }

    /// What follows where the next job is not to be given a timer.
    pub open spec fn passed_over(self, now: Timestamp) -> MigrationView {
        let rest = MigrationView { todo: self.todo.skip(1), ..self };
        match self.head() {
            None => rest,
            Some(job) => if is_legacy(job) && fire_time(job).spec_le(now) {
                MigrationView {
                    jobs: self.jobs.remove(job.id),
                    dropped: self.dropped + 1,
                    ..rest
                }
            } else {
                MigrationView { kept: self.kept + 1, ..rest }
            },
        }
    }

    /// What follows where the next job was to be given a timer, and that succeeded or not.
    pub open spec fn scheduled(self, ok: bool) -> MigrationView {
        let rest = MigrationView { todo: self.todo.skip(1), ..self };
        let id = self.head()->0.id;
        if !ok {
            MigrationView { kept: self.kept + 1, ..rest }
        } else if self.jobs.contains_key(id) {
            MigrationView {
                jobs: self.jobs.insert(id, moved(self.jobs[id], unit_of(id))),
                migrated: self.migrated + 1,
                ..rest
            }
        } else {
            MigrationView { migrated: self.migrated + 1, ..rest }
        }
    }

    /// What follows the next job, at the instant at which it is looked at, where the timer
    /// that it may be given is created or not.
    pub open spec fn after(self, now: Timestamp, ok: bool) -> MigrationView {
        if self.head_is_due_later(now) {
            self.scheduled(ok)
        } else {
            self.passed_over(now)
        }
    }

    /// Where the migration ends, when the jobs are looked at at these instants and their
    /// timers are created or not.
    pub open spec fn after_all(self, events: Seq<(Timestamp, bool)>) -> MigrationView
        decreases self.todo.len(),
    {
        if self.todo.len() == 0 {
            self
        } else {
            self.after(events[0].0, events[0].1).after_all(events.skip(1))
        }
    }

    /// Where the migration stands once `n` jobs have been looked at.
    pub open spec fn after_some(self, events: Seq<(Timestamp, bool)>, n: int) -> MigrationView
        decreases n,
    {
        if n <= 0 {
            self
        } else {
            self.after(events[0].0, events[0].1).after_some(events.skip(1), n - 1)
        }
    }

    /// A migration that is about to start: each job is to be looked at, and none has been.
    pub open spec fn is_fresh(self) -> bool {
        &&& self.in_order()
        &&& forall|k: Seq<char>| #[trigger] self.jobs.contains_key(k) ==> self.todo.contains(k)
        &&& self.migrated == 0
        &&& self.dropped == 0
        &&& self.kept == 0
    }

    /// Each job stands under its own ID, and those still to be looked at are all there, each
    /// named once.
    pub open spec fn in_order(self) -> bool {
        &&& forall|k: Seq<char>| #[trigger] self.jobs.contains_key(k) ==> self.jobs[k].id == k
        &&& self.todo.no_duplicates()
        &&& forall|i: int| 0 <= i < self.todo.len() ==> self.jobs.contains_key(#[trigger] self.todo[i])
    }

    /// The jobs that have been looked at have left the queue.
    pub open spec fn none_left_behind(self) -> bool {
        forall|k: Seq<char>| #[trigger]
            self.jobs.contains_key(k) && is_legacy(self.jobs[k]) ==> self.todo.contains(k)
    }
}

/// What to say of a job that is dropped.
pub open spec fn dropped_text(job: JobView) -> Seq<char> {
    let at = fire_time(job);
    "[migrate] dropping past-due one-shot '"@ + job.id + "' (fire time "@ + civil_text(
        at.secs as int,
        at.nanos as int,
        Pattern::Second.spec_format(),
    ) + ")"@
}

/// What to say of a job that has been given a timer.
pub open spec fn migrated_text(id: Seq<char>, unit: Seq<char>) -> Seq<char> {
    "[migrate] migrated '"@ + id + "' to systemd timer '"@ + unit + "'"@
}

/// What to say of a job that could not be given a timer.
pub open spec fn failed_text(id: Seq<char>, error: Seq<char>) -> Seq<char> {
    "[migrate] failed to migrate '"@ + id + "': "@ + error + " (left as-is)"@
}

/// A migration under way.
#[derive(Debug)]
pub struct Migration {
    pub store: JobStore,
    /// The IDs of all jobs, and how many of them have been looked at.
    pub job_ids: Vec<String>,
    pub next: usize,
    pub migrated: usize,
    pub dropped: usize,
    pub kept: usize,
}

/// What is to be done about a job.
#[derive(Debug)]
pub enum Progress {
    /// Nothing: there are no more jobs.
    Done,
    /// Nothing: the job was left alone, or is gone.
    Passed,
    /// Say this, and remove this number from the queue: the job was dropped.
    Dropped { message: String, legacy_handle: String },
    /// Carry out this plan, and tell the migration what became of it.
    Schedule { plan: Plan, legacy_handle: String },
}

impl View for Migration {
    type V = MigrationView;

    open spec fn view(&self) -> MigrationView {
        MigrationView {
            jobs: self.store@,
            todo: string_views(self.job_ids@).skip(self.next as int),
            migrated: self.migrated as int,
            dropped: self.dropped as int,
            kept: self.kept as int,
        }
    }
}

impl Migration {
    pub open spec fn wf(self) -> bool {
        &&& self.store.wf()
        &&& self.store.jobs_wf()
        &&& self.next <= self.job_ids@.len()
        &&& self.migrated + self.dropped + self.kept <= self.next
    }

    /// A migration of all jobs, the oldest first.
    pub fn start(store: JobStore) -> (r: Migration)
        requires
            store.wf(),
            store.jobs_wf(),
        ensures
            r.wf(),
            r@ == (MigrationView {
                jobs: store@,
                todo: ids(store.listed()),
                migrated: 0,
                dropped: 0,
                kept: 0,
            }),
            store.keyed_by_id() ==> r@.is_fresh(),
    {
        let mut job_ids: Vec<String> = Vec::new();
        let jobs = store.list();
        let ghost listed = store.listed();
        let mut i: usize = 0;
        while i < jobs.len()
            invariant
                i <= jobs@.len(),
                listed == job_views(jobs@),
                job_ids@.len() == i,
                forall|j: int| 0 <= j < i ==> (#[trigger] job_ids@[j])@ == listed[j].id,
            decreases jobs.len() - i,
        {
            job_ids.push(jobs[i].id.clone());
            i += 1;
        }
        let r = Migration { store, job_ids, next: 0, migrated: 0, dropped: 0, kept: 0 };
        proof {
            assert(r@.todo == ids(listed));
            if store.keyed_by_id() {
                law_listing_names_each_job_once(store);
                assert forall|k: Seq<char>| #[trigger] r@.jobs.contains_key(k) implies r@.todo.contains(
                    k,
                ) by {
                    let j = choose|j: int| 0 <= j < listed.len() && listed[j] == store@[k];
                    assert(r@.todo[j] == k);
                }
            }
        }
        r
    }

    /// Look at the next job, at an instant. A job that is to be given a timer stays the next
    /// one until `record` is told what became of it.
    pub fn step(&mut self, now: Timestamp, env: &UnitEnv) -> (r: Progress)
        requires
            old(self).wf(),
        ensures
            final(self).wf(),
            r is Done <==> old(self)@.todo.len() == 0,
            r is Schedule <==> old(self)@.head_is_due_later(now),
            r is Done || r is Schedule ==> *final(self) == *old(self),
            r is Passed || r is Dropped ==> final(self)@ == old(self)@.passed_over(now),
            r is Dropped <==> old(self)@.todo.len() > 0 && (old(self)@.head() matches Some(job)
                && is_legacy(job) && fire_time(job).spec_le(now)),
            r matches Progress::Dropped { message, legacy_handle } ==> message@ == dropped_text(
                old(self)@.head()->0,
            ) && legacy_handle@ == queue_number(old(self)@.head()->0),
            r matches Progress::Schedule { plan, legacy_handle } ==> is_oneshot_plan(
                plan@,
                old(self)@.head()->0.id,
                fire_time(old(self)@.head()->0),
                env@,
            ) && legacy_handle@ == queue_number(old(self)@.head()->0),
            old(self).store.keyed_by_id() ==> final(self).store.keyed_by_id(),
    {
        if self.next >= self.job_ids.len() {
            return Progress::Done;
        }
        let ghost before = self@;
        let ghost todo = string_views(self.job_ids@);
        proof {
            assert(before.todo.len() == todo.len() - self.next);
            assert(self.next < self.job_ids.len());
            assert(before.todo[0] == todo[self.next as int]);
            assert(before.todo.skip(1) == todo.skip(self.next + 1));
        }
        let snapshot = match self.store.get(self.job_ids[self.next].as_str()) {
            Some(job) => job.clone(),
            None => {
                self.next += 1;
                return Progress::Passed;
            },
        };
        proof {
            lemma_stored_job(self.store, before.todo[0]);
        }
        let (at, legacy_handle) = match &snapshot.schedule {
            Schedule::Once { at, unit: None, at_job: Some(handle) } => (*at, handle.clone()),
            _ => {
                self.next += 1;
                self.kept += 1;
                return Progress::Passed;
            },
        };
        if at.le(&now) {
            let mut message = "[migrate] dropping past-due one-shot '".to_owned();
            message.append(snapshot.id.as_str());
            message.append("' (fire time ");
            message.append(utc_text(at, Pattern::Second).as_str());
            message.append(")");
            let _ = self.store.remove(snapshot.id.as_str());
            self.next += 1;
            self.dropped += 1;
            return Progress::Dropped { message, legacy_handle };
        }
        match Backend::Systemd.schedule(&snapshot, env) {
            Ok(plan) => Progress::Schedule { plan, legacy_handle },
            Err(_) => {
                assert(false);
                Progress::Done
            },
        }
    }

    /// Record what became of the plan for the next job, and say it.
    pub fn record(&mut self, outcome: Result<(), &str>) -> (r: String)
        requires
            old(self).wf(),
            old(self)@.todo.len() > 0,
            old(self)@.head() matches Some(job) && is_legacy(job),
        ensures
            final(self).wf(),
            final(self)@ == old(self)@.scheduled(outcome is Ok),
            r@ == match outcome {
                Ok(_) => migrated_text(
                    old(self)@.head()->0.id,
                    unit_of(old(self)@.head()->0.id),
                ),
                Err(e) => failed_text(old(self)@.head()->0.id, e@),
            },
            old(self).store.keyed_by_id() ==> final(self).store.keyed_by_id(),
    {
        let ghost before = self@;
        let ghost todo = string_views(self.job_ids@);
        proof {
            assert(before.todo.len() == todo.len() - self.next);
            assert(self.next < self.job_ids.len());
            assert(before.todo[0] == todo[self.next as int]);
            assert(before.todo.skip(1) == todo.skip(self.next + 1));
        }
        let id = match self.store.get(self.job_ids[self.next].as_str()) {
            Some(job) => job.id.clone(),
            None => String::new(),
        };
        self.next += 1;
        match outcome {
            Ok(_) => {
                let new_unit = unit_name(id.as_str());
                let mut message = "[migrate] migrated '".to_owned();
                message.append(id.as_str());
                message.append("' to systemd timer '");
                message.append(new_unit.as_str());
                message.append("'");
                proof {
                    if self.store@.contains_key(id@) {
                        lemma_stored_job(self.store, id@);
                    }
                }
                if let Some(job) = self.store.get_mut(id.as_str()) {
                    if let Schedule::Once { unit, at_job, .. } = &mut job.schedule {
                        *unit = Some(new_unit);
                        *at_job = None;
                    }
                }
                self.migrated += 1;
                message
            },
            Err(e) => {
                let mut message = "[migrate] failed to migrate '".to_owned();
                message.append(id.as_str());
                message.append("': ");
                message.append(e);
                message.append(" (left as-is)");
                self.kept += 1;
                message
            },
        }
    }

    /// What to say at the end.
    pub fn summary(&self) -> (r: String)
        ensures
            r@ == "Migration complete: "@ + decimal(self.migrated as int)
                + " migrated to systemd, "@ + decimal(self.dropped as int)
                + " dropped (past due), "@ + decimal(self.kept as int) + " unchanged"@,
    {
        let mut r = "Migration complete: ".to_owned();
        r.append(decimal_text(self.migrated as u64).as_str());
        r.append(" migrated to systemd, ");
        r.append(decimal_text(self.dropped as u64).as_str());
        r.append(" dropped (past due), ");
        r.append(decimal_text(self.kept as u64).as_str());
        r.append(" unchanged");
        r
    }
}

/// Whether there is anything to remove from the queue.
pub open spec fn needs_atrm(handle: Seq<char>) -> bool {
    handle.len() > 0 && handle != "unknown"@
}

/// Whether atrm is to be called for a number in the queue.
pub fn should_atrm(handle: &str) -> (r: bool)
    ensures
        r == needs_atrm(handle@),
{
    !handle.is_empty() && !same(handle, "unknown")
}

/// What came of a call of atrm.
#[derive(Debug)]
pub enum Atrm {
    Removed,
    /// It failed, and wrote this to its error output.
    Failed(String),
    /// It could not be started, for this reason.
    NotStarted(String),
}

/// What to say where a number could not be removed from the queue. The job has its timer in
/// any case.
pub open spec fn atrm_text(handle: Seq<char>, outcome: Atrm) -> Option<Seq<char>> {
    match outcome {
        Atrm::Removed => None,
        Atrm::Failed(stderr) => Some(
            "[migrate] warning: atrm "@ + handle + " failed (left in at-queue): "@ + trimmed(
                stderr@,
            ),
        ),
        Atrm::NotStarted(e) => Some(
            "[migrate] warning: could not invoke atrm for "@ + handle + " ("@ + e@
                + "). The at-queue entry (if any) was left untouched."@,
        ),
    }
}

/// What to say where a number could not be removed from the queue.
pub fn best_effort_atrm(handle: &str, outcome: &Atrm) -> (r: Option<String>)
    ensures
        r is Some <==> atrm_text(handle@, *outcome) is Some,
        r matches Some(t) ==> atrm_text(handle@, *outcome) == Some(t@),
{
    match outcome {
        Atrm::Removed => None,
        Atrm::Failed(stderr) => {
            let mut r = "[migrate] warning: atrm ".to_owned();
            r.append(handle);
            r.append(" failed (left in at-queue): ");
            r.append(trim(stderr.as_str()));
            Some(r)
        },
        Atrm::NotStarted(e) => {
            let mut r = "[migrate] warning: could not invoke atrm for ".to_owned();
            r.append(handle);
            r.append(" (");
            r.append(e.as_str());
            r.append("). The at-queue entry (if any) was left untouched.");
            Some(r)
        },
    }
}

/// A job that was moved is left alone from then on.
pub proof fn law_moved_job_is_not_legacy(job: JobView, unit: Seq<char>)
    ensures
        !is_legacy(moved(job, unit)),
        is_legacy(job) ==> moved(job, unit).schedule.handle() == Some(unit),
{
}

/// Each step looks at one job and counts it, under exactly one of the three headings.
proof fn lemma_one_step(m: MigrationView, now: Timestamp, ok: bool)
    requires
        m.in_order(),
        m.todo.len() > 0,
    ensures
        m.after(now, ok).in_order(),
        m.after(now, ok).todo == m.todo.skip(1),
        m.after(now, ok).migrated + m.after(now, ok).dropped + m.after(now, ok).kept == m.migrated
            + m.dropped + m.kept + 1,
        m.none_left_behind() && ok ==> m.after(now, ok).none_left_behind(),
{
    let n = m.after(now, ok);
    let id = m.todo[0];
    let job = m.jobs[id];
    assert(m.jobs.contains_key(id) && job.id == id);
    assert(n.todo == m.todo.skip(1));
    assert forall|i: int| 0 <= i < n.todo.len() implies n.jobs.contains_key(
        #[trigger] n.todo[i],
    ) by {
        assert(n.todo[i] == m.todo[i + 1]);
        assert(m.todo[i + 1] != m.todo[0]);
    }
    assert(n.todo.no_duplicates()) by {
        assert forall|i: int, j: int| 0 <= i < n.todo.len() && 0 <= j < n.todo.len() && i
            != j implies n.todo[i] != n.todo[j] by {
            assert(m.todo[i + 1] != m.todo[j + 1]);
        }
    }
    if m.none_left_behind() && ok {
        assert forall|k: Seq<char>| #[trigger] n.jobs.contains_key(k) && is_legacy(
            n.jobs[k],
        ) implies n.todo.contains(k) by {
            assert(k != id);
            assert(m.jobs.contains_key(k) && m.todo.contains(k));
            let i = choose|i: int| 0 <= i < m.todo.len() && m.todo[i] == k;
            assert(n.todo[i - 1] == k);
        }
    }
}

/// Every job is counted once, as moved, dropped or left alone; and where every timer that is
/// asked for is created, no job is left in the queue of at(1).
pub proof fn law_every_job_is_counted(m: MigrationView, events: Seq<(Timestamp, bool)>)
    requires
        m.in_order(),
        events.len() == m.todo.len(),
    ensures
        m.after_all(events).todo.len() == 0,
        m.after_all(events).in_order(),
        m.after_all(events).migrated + m.after_all(events).dropped + m.after_all(events).kept
            == m.migrated + m.dropped + m.kept + m.todo.len(),
        m.none_left_behind() && (forall|i: int| 0 <= i < events.len() ==> (#[trigger] events[i]).1)
            ==> forall|k: Seq<char>| #[trigger]
            m.after_all(events).jobs.contains_key(k) ==> !is_legacy(m.after_all(events).jobs[k]),
    decreases m.todo.len(),
{
    if m.todo.len() > 0 {
        let n = m.after(events[0].0, events[0].1);
        let rest = events.skip(1);
        lemma_one_step(m, events[0].0, events[0].1);
        law_every_job_is_counted(n, rest);
        if forall|i: int| 0 <= i < events.len() ==> (#[trigger] events[i]).1 {
            assert(forall|i: int| 0 <= i < rest.len() ==> #[trigger] rest[i] == events[i + 1]);
        }
    } else if m.none_left_behind() {
        assert forall|k: Seq<char>| #[trigger] m.jobs.contains_key(k) implies !is_legacy(
            m.jobs[k],
        ) by {
            if is_legacy(m.jobs[k]) {
                assert(m.todo.contains(k));
            }
        }
    }
}

/// A migration that finds no job in the queue of at(1) changes nothing, and counts every job
/// as left alone. With the law above, a second migration after one that created every timer
/// is such a migration.
pub proof fn law_migration_is_idempotent(m: MigrationView, events: Seq<(Timestamp, bool)>)
    requires
        m.in_order(),
        events.len() == m.todo.len(),
        forall|k: Seq<char>| #[trigger] m.jobs.contains_key(k) ==> !is_legacy(m.jobs[k]),
    ensures
        m.after_all(events).jobs == m.jobs,
        m.after_all(events).migrated == m.migrated,
        m.after_all(events).dropped == m.dropped,
        m.after_all(events).kept == m.kept + m.todo.len(),
    decreases m.todo.len(),
{
    if m.todo.len() > 0 {
        let n = m.after(events[0].0, events[0].1);
        lemma_one_step(m, events[0].0, events[0].1);
        assert(m.jobs.contains_key(m.todo[0]));
        assert(n == m.passed_over(events[0].0));
        law_migration_is_idempotent(n, events.skip(1));
    }
}

/// The jobs that are to be looked at are as many as there are.
proof fn lemma_fresh_counts_all(m: MigrationView)
    requires
        m.is_fresh(),
    ensures
        m.jobs.dom().finite(),
        m.jobs.dom().len() == m.todo.len(),
{
    m.todo.unique_seq_to_set();
    assert forall|k: Seq<char>| m.jobs.dom().contains(k) == m.todo.to_set().contains(k) by {
        if m.todo.contains(k) {
            let i = choose|i: int| 0 <= i < m.todo.len() && m.todo[i] == k;
            assert(m.jobs.contains_key(m.todo[i]));
        }
        if m.jobs.contains_key(k) {
            assert(m.todo.contains(k));
        }
    }
    assert(m.jobs.dom() =~= m.todo.to_set());
    vstd::seq_lib::seq_to_set_is_finite(m.todo);
}

/// A migration takes away as many jobs as it drops.
proof fn lemma_dropped_jobs_are_gone(m: MigrationView, events: Seq<(Timestamp, bool)>)
    requires
        m.in_order(),
        m.jobs.dom().finite(),
        events.len() == m.todo.len(),
    ensures
        m.after_all(events).jobs.dom().len() + m.after_all(events).dropped == m.jobs.dom().len()
            + m.dropped,
    decreases m.todo.len(),
{
    if m.todo.len() > 0 {
        let n = m.after(events[0].0, events[0].1);
        lemma_one_step(m, events[0].0, events[0].1);
        assert(m.jobs.contains_key(m.todo[0]));
        assert(n.jobs.dom().len() + n.dropped == m.jobs.dom().len() + m.dropped) by {
            if n.dropped == m.dropped {
                assert(n.jobs.dom() =~= m.jobs.dom());
            }
        }
        lemma_dropped_jobs_are_gone(n, events.skip(1));
    }
}

/// Where no job is in the queue of at(1), the jobs stay what they are however many have been
/// looked at, and the next one is none that is given a timer or dropped.
proof fn lemma_nothing_to_do(m: MigrationView, events: Seq<(Timestamp, bool)>, n: int)
    requires
        m.in_order(),
        events.len() == m.todo.len(),
        forall|k: Seq<char>| #[trigger] m.jobs.contains_key(k) ==> !is_legacy(m.jobs[k]),
        0 <= n < m.todo.len(),
    ensures
        m.after_some(events, n).jobs == m.jobs,
        m.after_some(events, n).todo == m.todo.skip(n),
        m.after_some(events, n).head_is_left_alone(),
    decreases n,
{
    assert(m.jobs.contains_key(m.todo[0]));
    if n > 0 {
        let next = m.after(events[0].0, events[0].1);
        lemma_one_step(m, events[0].0, events[0].1);
        assert(next == m.passed_over(events[0].0));
        lemma_nothing_to_do(next, events.skip(1), n - 1);
        assert(m.todo.skip(1).skip(n - 1) =~= m.todo.skip(n));
    } else {
        assert(m.todo.skip(0) =~= m.todo);
    }
}

/// After a migration that created every timer, a second one over the same jobs moves none,
/// drops none, and counts as left alone as many as the first moved and left alone. The jobs
/// stay what they are, and no step of it asks for a timer or for the queue of at(1).
pub proof fn law_second_migration_changes_nothing(
    first: MigrationView,
    events: Seq<(Timestamp, bool)>,
    second: MigrationView,
    more_events: Seq<(Timestamp, bool)>,
)
    requires
        first.is_fresh(),
        events.len() == first.todo.len(),
        forall|i: int| 0 <= i < events.len() ==> (#[trigger] events[i]).1,
        second.is_fresh(),
        second.jobs == first.after_all(events).jobs,
        more_events.len() == second.todo.len(),
    ensures
        second.after_all(more_events).jobs == second.jobs,
        second.after_all(more_events).migrated == 0,
        second.after_all(more_events).dropped == 0,
        second.after_all(more_events).kept == first.after_all(events).migrated + first.after_all(
            events,
        ).kept,
        forall|n: int|
            0 <= n < second.todo.len() ==> (#[trigger] second.after_some(
                more_events,
                n,
            )).head_is_left_alone(),
{
    law_every_job_is_counted(first, events);
    law_migration_is_idempotent(second, more_events);
    lemma_fresh_counts_all(first);
    lemma_fresh_counts_all(second);
    lemma_dropped_jobs_are_gone(first, events);
    assert forall|n: int| 0 <= n < second.todo.len() implies (#[trigger] second.after_some(
        more_events,
        n,
    )).head_is_left_alone() by {
        lemma_nothing_to_do(second, more_events, n);
    }
}

/// A job that is not in the queue of at(1) comes through a migration unchanged.
pub proof fn law_other_jobs_are_left_alone(
    m: MigrationView,
    events: Seq<(Timestamp, bool)>,
    k: Seq<char>,
)
    requires
        m.in_order(),
        events.len() == m.todo.len(),
        m.jobs.contains_key(k),
        !is_legacy(m.jobs[k]),
    ensures
        m.after_all(events).jobs.contains_key(k),
        m.after_all(events).jobs[k] == m.jobs[k],
    decreases m.todo.len(),
{
    if m.todo.len() > 0 {
        let n = m.after(events[0].0, events[0].1);
        lemma_one_step(m, events[0].0, events[0].1);
        assert(m.jobs.contains_key(m.todo[0]));
        law_other_jobs_are_left_alone(n, events.skip(1), k);
    }
}

/// No job is moved or dropped but those in the queue of at(1): one that was due is dropped,
/// one that is due later is kept, with its timer where that was created.
pub proof fn law_past_due_jobs_are_dropped(m: MigrationView, now: Timestamp, ok: bool)
    requires
        m.in_order(),
        m.todo.len() > 0,
        is_legacy(m.jobs[m.todo[0]]),
    ensures
        fire_time(m.jobs[m.todo[0]]).spec_le(now) ==> m.after(now, ok).jobs == m.jobs.remove(
            m.todo[0],
        ),
        !fire_time(m.jobs[m.todo[0]]).spec_le(now) && ok ==> m.after(now, ok).jobs
            == m.jobs.insert(m.todo[0], moved(m.jobs[m.todo[0]], unit_of(m.todo[0]))),
        !fire_time(m.jobs[m.todo[0]]).spec_le(now) && !ok ==> m.after(now, ok).jobs == m.jobs,
{
    assert(m.jobs.contains_key(m.todo[0]));
}

/// A job is moved where it fires once, has a number in the queue of at(1) and no timer. What it
/// gets is a timer of its own in place of the number; its time and all else stay.
pub proof fn law_jobs_are_moved_as_they_are(job: JobView, unit: Seq<char>)
    ensures
        is_legacy(job) <==> (job.schedule matches ScheduleView::Once { unit, at_job, .. } && unit
            is None && at_job is Some),
        job.schedule matches ScheduleView::Once { at, .. } ==> moved(job, unit).schedule
            == (ScheduleView::Once { at, unit: Some(unit), at_job: None }),
        job.schedule is Cron ==> moved(job, unit) == job,
        moved(job, unit).id == job.id,
        moved(job, unit).name == job.name,
        moved(job, unit).command == job.command,
        moved(job, unit).constraints == job.constraints,
        moved(job, unit).enabled == job.enabled,
        moved(job, unit).created_at == job.created_at,
        moved(job, unit).created_by == job.created_by,
{
}

/// Each job that is looked at counts under one heading: as dropped where it is in the queue and
/// due, as migrated where it is in the queue, due later, and was given its timer, and as left
/// alone otherwise. No other job changes.
pub proof fn law_each_job_is_migrated_or_not(
    m: MigrationView,
    now: Timestamp,
    ok: bool,
    other: Seq<char>,
)
    requires
        m.in_order(),
        m.todo.len() > 0,
    ensures
        ({
            let id = m.todo[0];
            let job = m.jobs[id];
            let n = m.after(now, ok);
            let due = job.schedule matches ScheduleView::Once { at, .. } && (at.secs < now.secs || (
            at.secs == now.secs && at.nanos <= now.nanos));
            &&& is_legacy(job) && due ==> n.jobs == m.jobs.remove(id) && n.dropped == m.dropped + 1
                && n.migrated == m.migrated && n.kept == m.kept
            &&& is_legacy(job) && !due && ok ==> n.jobs == m.jobs.insert(
                id,
                moved(job, "usched-"@ + id),
            ) && n.migrated == m.migrated + 1 && n.dropped == m.dropped && n.kept == m.kept
            &&& !is_legacy(job) || (!due && !ok) ==> n.jobs == m.jobs && n.kept == m.kept + 1
                && n.migrated == m.migrated && n.dropped == m.dropped
            &&& n.todo == m.todo.skip(1)
            &&& other != id ==> n.jobs.contains_key(other) == m.jobs.contains_key(other) && (
            m.jobs.contains_key(other) ==> n.jobs[other] == m.jobs[other])
        }),
{
    assert(m.jobs.contains_key(m.todo[0]));
}

/// What is told of a job that is dropped, moved, or could not be.
pub proof fn law_migration_tells_of_each_job(
    job: JobView,
    unit: Seq<char>,
    error: Seq<char>,
    handle: Seq<char>,
)
    ensures
        job.schedule matches ScheduleView::Once { at, .. } ==> dropped_text(job)
            == "[migrate] dropping past-due one-shot '"@ + job.id + "' (fire time "@ + civil_text(
            at.secs as int,
            at.nanos as int,
            "%Y-%m-%d %H:%M:%S"@,
        ) + ")"@,
        migrated_text(job.id, unit) == "[migrate] migrated '"@ + job.id + "' to systemd timer '"@
            + unit + "'"@,
        failed_text(job.id, error) == "[migrate] failed to migrate '"@ + job.id + "': "@ + error
            + " (left as-is)"@,
        needs_atrm(handle) <==> handle.len() > 0 && handle != "unknown"@,
        job.schedule matches ScheduleView::Once { at_job: Some(number), .. } ==> queue_number(job)
            == number,
{
}

/// Nothing is said of a number that was removed from the queue; a failure is told with its
/// number and its cause.
pub proof fn law_failed_removal_is_told(handle: Seq<char>, cause: String)
    ensures
        atrm_text(handle, Atrm::Removed) is None,
        atrm_text(handle, Atrm::Failed(cause)) == Some(
            "[migrate] warning: atrm "@ + handle + " failed (left in at-queue): "@ + trimmed(
                cause@,
            ),
        ),
        atrm_text(handle, Atrm::NotStarted(cause)) == Some(
            "[migrate] warning: could not invoke atrm for "@ + handle + " ("@ + cause@
                + "). The at-queue entry (if any) was left untouched."@,
        ),
{
}

} // verus!

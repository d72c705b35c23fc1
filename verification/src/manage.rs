//! Jobs added, changed and removed by a user.
use crate::backend::Backend;
use crate::cron_convert::CronFault;
use crate::job::{
    is_id_for, Constraints, ConstraintsView, Job, JobView, Schedule, ScheduleView, TimeRange,
};
use crate::listing::those;
use crate::moment::{is_local_text, is_now, local_text, utc_now, Pattern, Timestamp};
use crate::store::{JobStore};
use crate::systemd::{
    creates_timer, disable_steps, enable_step, remove_steps, step_views, unit_name, unit_of,
    PlanView, Step, StepView, UnitEnvView,
};
use crate::text::{copy_string, copy_strings, lower_text, opt_text, same, string_views, trimmed};
use crate::time_input::{
    instant_result, met_now, parse_datetime, parse_time_range, reading, time_range_of, Fault,
    TimeInputError,
};
use vstd::prelude::*;

verus! {

/// Why a request of a user is refused.
#[derive(Debug)]
pub enum ManageError {
    /// There is no job with this ID.
    NotFound(String),
    /// Neither a cron expression nor a time is given for a new job.
    NoSchedule,
    /// There is no job with this ID or name to run after.
    UnknownDependency(String),
    /// A time cannot be read.
    Time(TimeInputError),
    /// A job that fires once cannot be given a cron expression.
    OneOff,
}

#[verifier::ext_equal]
pub enum ManageFault {
    NotFound(Seq<char>),
    NoSchedule,
    UnknownDependency(Seq<char>),
    Time(Fault),
    OneOff,
}

impl View for ManageError {
    type V = ManageFault;

    open spec fn view(&self) -> ManageFault {
        match *self {
            ManageError::NotFound(id) => ManageFault::NotFound(id@),
            ManageError::NoSchedule => ManageFault::NoSchedule,
            ManageError::UnknownDependency(dep) => ManageFault::UnknownDependency(dep@),
            ManageError::Time(e) => ManageFault::Time(e@),
            ManageError::OneOff => ManageFault::OneOff,
        }
    }
}

impl ManageFault {
    /// What a user is told.
    pub open spec fn message(self) -> Seq<char> {
        match self {
            ManageFault::NotFound(id) => "Job '"@ + id + "' not found"@,
            ManageFault::NoSchedule => "Must specify either --cron or --once"@,
            ManageFault::UnknownDependency(dep) => "Dependency job '"@ + dep
                + "' not found. Use a valid job ID or name."@,
            ManageFault::Time(f) => f.message(),
            ManageFault::OneOff => {
                "Cannot change a one-off job to cron. Remove and re-add instead."@
            },
        }
    }
}

impl ManageError {
    /// What a user is told.
    pub fn message(&self) -> (r: String)
        ensures
            r@ == self@.message(),
    {
        match self {
            ManageError::NotFound(id) => {
                let mut r = "Job '".to_owned();
                r.append(id.as_str());
                r.append("' not found");
                r
            },
            ManageError::NoSchedule => "Must specify either --cron or --once".to_owned(),
            ManageError::UnknownDependency(dep) => {
                let mut r = "Dependency job '".to_owned();
                r.append(dep.as_str());
                r.append("' not found. Use a valid job ID or name.");
                r
            },
            ManageError::Time(e) => e.message(),
            ManageError::OneOff => {
                "Cannot change a one-off job to cron. Remove and re-add instead.".to_owned()
            },
        }
    }
}

/// `'id'` between two texts.
fn about(before: &str, id: &str, after: &str) -> (r: String)
    ensures
        r@ == before@ + id@ + after@,
{
    let mut r = before.to_owned();
    r.append(id);
    r.append(after);
    r
}

fn no_steps() -> (r: Vec<Step>)
    ensures
        step_views(r@) == Seq::<StepView>::empty(),
{
    let r: Vec<Step> = Vec::new();
    assert(step_views(r@) == Seq::<StepView>::empty());
    r
}

/// What it takes to remove a job, and what to say: of its timer once the steps are taken, and
/// of the job once the store is kept.
#[derive(Debug)]
pub struct Removed {
    pub steps: Vec<Step>,
    pub timer_message: Option<String>,
    pub message: String,
}

/// Take a job out of the store.
pub fn cmd_remove(store: &mut JobStore, id: &str, systemd_dir: &str) -> (r: Result<
    Removed,
    ManageError,
>)
    requires
        old(store).wf(),
    ensures
        final(store).wf(),
        final(store)@ == old(store)@.remove(id@),
        r is Ok <==> old(store)@.contains_key(id@),
        r matches Err(e) ==> e@ == ManageFault::NotFound(id@),
        r matches Ok(done) ==> done.message@ == "Removed job '"@ + id@ + "'"@,
        r matches Ok(done) ==> match old(store)@[id@].schedule.handle() {
            Some(h) => step_views(done.steps@) == remove_steps(h, systemd_dir@) && opt_text(
                done.timer_message,
            ) == Some("Removed systemd timer '"@ + h + "'"@),
            None => step_views(done.steps@) == Seq::<StepView>::empty() && done.timer_message
                is None,
        },
{
    let job = match store.remove(id) {
        Some(job) => job,
        None => {
            return Err(ManageError::NotFound(id.to_owned()));
        },
    };
    let message = about("Removed job '", id, "'");
    match job.schedule.handle() {
        Some(handle) => {
            let steps = job.schedule.backend().remove(handle, systemd_dir);
            let timer_message = Some(about("Removed systemd timer '", handle, "'"));
            Ok(Removed { steps, timer_message, message })
        },
        None => Ok(Removed { steps: no_steps(), timer_message: None, message }),
    }
}

/// What it takes to enable or disable a job, and what to say. Where nothing changes, the
/// store need not be kept.
#[derive(Debug)]
pub struct Toggled {
    pub steps: Vec<Step>,
    pub changed: bool,
    pub message: String,
}

/// A job that is enabled or not.
pub open spec fn toggled(job: JobView, enabled: bool) -> JobView {
    JobView { enabled, ..job }
}

/// Enable a job that is disabled.
pub fn cmd_enable(store: &mut JobStore, id: &str) -> (r: Result<Toggled, ManageError>)
    requires
        old(store).wf(),
    ensures
        r is Ok <==> old(store)@.contains_key(id@),
        r matches Err(e) ==> e@ == ManageFault::NotFound(id@) && *final(store) == *old(store),
        r matches Ok(t) ==> {
            let job = old(store)@[id@];
            &&& final(store).wf()
            &&& final(store)@ == old(store)@.insert(id@, toggled(job, true))
            &&& t.changed == !job.enabled
            &&& job.enabled ==> step_views(t.steps@) == Seq::<StepView>::empty() && t.message@
                == "Job '"@ + id@ + "' is already enabled"@
            &&& !job.enabled ==> t.message@ == "Enabled job '"@ + id@ + "'"@ && step_views(
                t.steps@,
            ) == match job.schedule.handle() {
                Some(h) => seq![enable_step(h)],
                None => Seq::empty(),
            }
        },
{
    match store.get_mut(id) {
        None => Err(ManageError::NotFound(id.to_owned())),
        Some(job) => {
            if job.enabled {
                return Ok(
                    Toggled {
                        steps: no_steps(),
                        changed: false,
                        message: about("Job '", id, "' is already enabled"),
                    },
                );
            }
            let steps = match job.schedule.handle() {
                Some(handle) => job.schedule.backend().enable(handle),
                None => no_steps(),
            };
            job.enabled = true;
            Ok(Toggled { steps, changed: true, message: about("Enabled job '", id, "'") })
        },
    }
}

/// Disable a job that is enabled, without removing it.
pub fn cmd_disable(store: &mut JobStore, id: &str) -> (r: Result<Toggled, ManageError>)
    requires
        old(store).wf(),
    ensures
        r is Ok <==> old(store)@.contains_key(id@),
        r matches Err(e) ==> e@ == ManageFault::NotFound(id@) && *final(store) == *old(store),
        r matches Ok(t) ==> {
            let job = old(store)@[id@];
            &&& final(store).wf()
            &&& final(store)@ == old(store)@.insert(id@, toggled(job, false))
            &&& t.changed == job.enabled
            &&& !job.enabled ==> step_views(t.steps@) == Seq::<StepView>::empty() && t.message@
                == "Job '"@ + id@ + "' is already disabled"@
            &&& job.enabled ==> t.message@ == "Disabled job '"@ + id@ + "'"@ && step_views(
                t.steps@,
            ) == match job.schedule.handle() {
                Some(h) => disable_steps(h),
                None => Seq::empty(),
            }
        },
{
    match store.get_mut(id) {
        None => Err(ManageError::NotFound(id.to_owned())),
        Some(job) => {
            if !job.enabled {
                return Ok(
                    Toggled {
                        steps: no_steps(),
                        changed: false,
                        message: about("Job '", id, "' is already disabled"),
                    },
                );
            }
            let steps = match job.schedule.handle() {
                Some(handle) => job.schedule.backend().disable(handle),
                None => no_steps(),
            };
            job.enabled = false;
            Ok(Toggled { steps, changed: true, message: about("Disabled job '", id, "'") })
        },
    }
}

/// A job that was disabled and is enabled again is as it was.
pub proof fn law_enable_undoes_disable(jobs: Map<Seq<char>, JobView>, id: Seq<char>)
    requires
        jobs.contains_key(id),
        jobs[id].enabled,
    ensures
        jobs.insert(id, toggled(jobs[id], false)).insert(
            id,
            toggled(jobs.insert(id, toggled(jobs[id], false))[id], true),
        ) == jobs,
{
    assert(toggled(toggled(jobs[id], false), true) == jobs[id]);
    assert(jobs.insert(id, toggled(jobs[id], false)).insert(
        id,
        toggled(jobs.insert(id, toggled(jobs[id], false))[id], true),
    ) =~= jobs);
}

/// What is to be changed of a job.
#[derive(Debug)]
pub struct Edit {
    pub cron: Option<String>,
    pub name: Option<String>,
    pub not_during: Option<String>,
    pub clear_not_during: bool,
    pub dnd_aware: Option<bool>,
}

/// What a change comes to: what changed, what it takes to remove the timer that there was,
/// and whether the job is to be scheduled anew after that.
#[derive(Debug)]
pub struct Edited {
    pub changes: Vec<String>,
    pub removal: Vec<Step>,
    pub reschedule: bool,
}

/// The range that a job is to keep out of from now on, where one is given.
pub open spec fn edit_range(edit: Edit) -> Result<Option<TimeRange>, Fault> {
    if edit.clear_not_during || edit.not_during is None {
        Ok(None)
    } else {
        match time_range_of(edit.not_during->0@) {
            Ok(range) => Ok(Some(range)),
            Err(f) => Err(f),
        }
    }
}

/// A job with its changes.
pub open spec fn edited(job: JobView, edit: Edit, range: Option<TimeRange>) -> JobView {
    JobView {
        name: match edit.name {
            Some(n) => n@,
            None => job.name,
        },
        constraints: ConstraintsView {
            dnd_aware: match edit.dnd_aware {
                Some(d) => d,
                None => job.constraints.dnd_aware,
            },
            not_during: if edit.clear_not_during {
                Seq::empty()
            } else {
                match range {
                    Some(r) => seq![r],
                    None => job.constraints.not_during,
                }
            },
            ..job.constraints
        },
        schedule: match edit.cron {
            Some(expr) => ScheduleView::Cron { expr: expr@, unit: Some(unit_of(job.id)) },
            None => job.schedule,
        },
        ..job
    }
}

pub open spec fn bool_text(b: bool) -> Seq<char> {
    if b {
        "true"@
    } else {
        "false"@
    }
}

/// What may change, in words, and whether it does.
pub open spec fn change_items(edit: Edit) -> Seq<(bool, Seq<char>)> {
    seq![
        (edit.name is Some, "name → "@ + edit.name->0@),
        (edit.dnd_aware is Some, "dnd_aware → "@ + bool_text(edit.dnd_aware == Some(true))),
        (
            edit.clear_not_during || edit.not_during is Some,
            if edit.clear_not_during {
                "not_during → cleared"@
            } else {
                "not_during → "@ + edit.not_during->0@
            },
        ),
        (edit.cron is Some, "cron → "@ + edit.cron->0@),
    ]
}

/// What changed, in words.
pub open spec fn change_texts(edit: Edit) -> Seq<Seq<char>> {
    those(change_items(edit))
}

/// Why a job cannot be changed so, if it cannot.
pub open spec fn edit_fault(job: JobView, edit: Edit) -> Option<ManageFault> {
    match edit_range(edit) {
        Err(f) => Some(ManageFault::Time(f)),
        Ok(_) => if edit.cron is Some && job.schedule is Once {
            Some(ManageFault::OneOff)
        } else {
            None
        },
    }
}

fn changes_of(edit: &Edit) -> (r: Vec<String>)
    ensures
        string_views(r@) == change_texts(*edit),
{
    reveal_with_fuel(those, 5);
    let ghost items = change_items(*edit);
    let mut r: Vec<String> = Vec::new();
    proof {
        assert(items.drop_last() == items.take(3));
        assert(items.take(3).drop_last() == items.take(2));
        assert(items.take(2).drop_last() == items.take(1));
        assert(items.take(1).drop_last() == items.take(0));
        assert(string_views(r@) == those(items.take(0)));
    }
    if let Some(name) = &edit.name {
        let mut t = "name → ".to_owned();
        t.append(name.as_str());
        r.push(t);
        assert(string_views(r@) == those(items.take(0)).push(t@));
    }
    assert(string_views(r@) == those(items.take(1)));
    if let Some(dnd) = edit.dnd_aware {
        let mut t = "dnd_aware → ".to_owned();
        if dnd {
            t.append("true");
        } else {
            t.append("false");
        }
        r.push(t);
        assert(string_views(r@) == those(items.take(1)).push(t@));
    }
    assert(string_views(r@) == those(items.take(2)));
    if edit.clear_not_during {
        let t = "not_during → cleared".to_owned();
        r.push(t);
        assert(string_views(r@) == those(items.take(2)).push(t@));
    } else if let Some(nd) = &edit.not_during {
        let mut t = "not_during → ".to_owned();
        t.append(nd.as_str());
        r.push(t);
        assert(string_views(r@) == those(items.take(2)).push(t@));
    }
    assert(string_views(r@) == those(items.take(3)));
    if let Some(cron) = &edit.cron {
        let mut t = "cron → ".to_owned();
        t.append(cron.as_str());
        r.push(t);
        assert(string_views(r@) == those(items.take(3)).push(t@));
    }
    assert(string_views(r@) == those(items));
    r
}

/// Change a job. A job with a new cron expression is recorded with the unit that it gets when
/// it is scheduled anew; the timer that it had is to be removed before that, and the store is
/// to be kept only once both are done.
pub fn cmd_edit(store: &mut JobStore, id: &str, edit: &Edit, systemd_dir: &str) -> (r: Result<
    Edited,
    ManageError,
>)
    requires
        old(store).wf(),
    ensures
        final(store).wf(),
        !old(store)@.contains_key(id@) ==> (r matches Err(e) && e@ == ManageFault::NotFound(id@)),
        old(store)@.contains_key(id@) ==> match edit_fault(old(store)@[id@], *edit) {
            Some(f) => r matches Err(e) && e@ == f,
            None => r is Ok,
        },
        r is Err ==> final(store)@ == old(store)@,
        r matches Ok(done) ==> {
            let job = old(store)@[id@];
            &&& final(store)@ == old(store)@.insert(
                id@,
                edited(job, *edit, edit_range(*edit)->Ok_0),
            )
            &&& string_views(done.changes@) == change_texts(*edit)
            &&& done.reschedule == edit.cron is Some
            &&& step_views(done.removal@) == if edit.cron is Some && job.schedule.handle() is Some {
                remove_steps(job.schedule.handle()->0, systemd_dir@)
            } else {
                Seq::empty()
            }
        },
{
    let mut job = match store.get(id) {
        Some(job) => job.clone(),
        None => {
            return Err(ManageError::NotFound(id.to_owned()));
        },
    };
    let ghost was = job@;
    let range = if edit.clear_not_during {
        None
    } else {
        match &edit.not_during {
            Some(nd) => match parse_time_range(nd.as_str()) {
                Ok(range) => Some(range),
                Err(e) => {
                    return Err(ManageError::Time(e));
                },
            },
            None => None,
        }
    };
    if let Some(name) = &edit.name {
        job.name = name.clone();
    }
    if let Some(dnd) = edit.dnd_aware {
        job.constraints.dnd_aware = dnd;
    }
    if edit.clear_not_during {
        job.constraints.not_during = Vec::new();
    } else if let Some(r) = range {
        let mut ranges: Vec<TimeRange> = Vec::new();
        ranges.push(r);
        assert(ranges@ == seq![r]);
        job.constraints.not_during = ranges;
    }
    let changes = changes_of(edit);
    let mut removal = no_steps();
    if let Some(expr) = &edit.cron {
        match &job.schedule {
            Schedule::Once { .. } => {
                return Err(ManageError::OneOff);
            },
            Schedule::Cron { unit, .. } => {
                if let Some(handle) = unit {
                    removal = Backend::Systemd.remove(handle.as_str(), systemd_dir);
                }
            },
        }
        let unit = unit_name(job.id.as_str());
        job.schedule = Schedule::Cron { expr: expr.clone(), unit: Some(unit) };
    }
    assert(job@ == edited(was, *edit, edit_range(*edit)->Ok_0));
    if let Some(kept) = store.get_mut(id) {
        *kept = job;
    }
    Ok(Edited { changes, removal, reschedule: edit.cron.is_some() })
}

/// The unit that a changed job is recorded with is the one that scheduling it anew creates.
pub proof fn law_edited_job_has_its_new_unit(
    job: JobView,
    edit: Edit,
    range: Option<TimeRange>,
    plan: Result<PlanView, CronFault>,
    env: UnitEnvView,
)
    requires
        edit.cron is Some,
        creates_timer(plan, edited(job, edit, range), env),
        plan is Ok,
    ensures
        edited(job, edit, range).schedule.handle() == Some(plan->Ok_0.unit),
{
}

/// What to say of a change that was kept.
pub fn edit_report(id: &str, changes: &Vec<String>) -> (r: Vec<String>)
    ensures
        string_views(r@) == if changes@.len() == 0 {
            seq!["No changes specified for job '"@ + id@ + "'"@]
        } else {
            seq!["Updated job '"@ + id@ + "':"@] + string_views(changes@).map_values(
                |c: Seq<char>| "  "@ + c,
            )
        },
{
    let mut r: Vec<String> = Vec::new();
    if changes.len() == 0 {
        let t = about("No changes specified for job '", id, "'");
        r.push(t);
        assert(string_views(r@) == seq![t@]);
        return r;
    }
    let head = about("Updated job '", id, "':");
    r.push(head);
    let ghost all = string_views(changes@);
    let ghost write = |c: Seq<char>| "  "@ + c;
    let mut i: usize = 0;
    assert(string_views(r@) == seq![head@] + all.take(0).map_values(write));
    while i < changes.len()
        invariant
            i <= changes@.len(),
            all == string_views(changes@),
            write == (|c: Seq<char>| "  "@ + c),
            string_views(r@) == seq![head@] + all.take(i as int).map_values(write),
        decreases changes.len() - i,
    {
        let mut t = "  ".to_owned();
        t.append(changes[i].as_str());
        let ghost before = string_views(r@);
        r.push(t);
        proof {
            assert(string_views(r@) == before.push(t@));
            assert(all.take(i + 1).map_values(write) == all.take(i as int).map_values(write).push(
                t@,
            ));
        }
        i += 1;
    }
    assert(all.take(i as int) == all);
    r
}

/// A change leaves alone what it does not name, and never the ID, the command or the age of
/// a job.
pub proof fn law_edit_keeps_the_rest(job: JobView, edit: Edit, range: Option<TimeRange>)
    ensures
        edited(job, edit, range).id == job.id,
        edited(job, edit, range).command == job.command,
        edited(job, edit, range).created_at == job.created_at,
        edited(job, edit, range).enabled == job.enabled,
        edited(job, edit, range).constraints.only_during == job.constraints.only_during,
        edited(job, edit, range).constraints.after == job.constraints.after,
        edit.cron is None ==> edited(job, edit, range).schedule == job.schedule,
        edit.name is None && edit.cron is None && edit.dnd_aware is None && !edit.clear_not_during
            && range is None ==> edited(job, edit, range) == job,
{
}

/// A job as a user asks for it.
#[derive(Debug)]
pub struct AddRequest {
    pub name: Option<String>,
    pub cron: Option<String>,
    pub once: Option<String>,
    pub not_during: Option<String>,
    pub dnd_aware: bool,
    pub remove_on_success: bool,
    pub after: Option<String>,
    pub command: Vec<String>,
}

/// The name of a new job: the one given, or its program's.
pub open spec fn name_of(request: AddRequest) -> Seq<char> {
    match request.name {
        Some(n) => n@,
        None => if request.command@.len() > 0 {
            request.command@[0]@
        } else {
            "job"@
        },
    }
}

/// Whether there is a job with this ID or name.
pub open spec fn is_known(store: JobStore, job_ref: Seq<char>) -> bool {
    store@.contains_key(job_ref) || exists|i: int|
        0 <= i < store.kept().len() && (#[trigger] store.kept()[i]).name == job_ref
}

/// Why a request is refused before any time is read, if it is.
pub open spec fn request_fault(store: JobStore, request: AddRequest) -> Option<ManageFault> {
    if request.cron is None && request.once is None {
        Some(ManageFault::NoSchedule)
    } else if request.after is Some && !is_known(store, request.after->0@) {
        Some(ManageFault::UnknownDependency(request.after->0@))
    } else {
        None
    }
}

/// Check a request against the jobs that there are.
pub fn check_request(store: &JobStore, request: &AddRequest) -> (r: Result<(), ManageError>)
    ensures
        r is Ok <==> request_fault(*store, *request) is None,
        r matches Err(e) ==> request_fault(*store, *request) == Some(e@),
{
    if request.cron.is_none() && request.once.is_none() {
        return Err(ManageError::NoSchedule);
    }
    if let Some(dep) = &request.after {
        let name = dep.as_str();
        let mut known = store.get(name).is_some();
        let mut i: usize = 0;
        while i < store.jobs.len()
            invariant
                i <= store.jobs@.len(),
                known <==> store@.contains_key(name@) || exists|j: int|
                    0 <= j < i && (#[trigger] store.kept()[j]).name == name@,
            decreases store.jobs.len() - i,
        {
            assert(store.kept()[i as int] == store.jobs@[i as int].job@);
            if same(store.jobs[i].job.name.as_str(), name) {
                known = true;
            }
            i += 1;
        }
        if !known {
            return Err(ManageError::UnknownDependency(dep.clone()));
        }
    }
    Ok(())
}

/// A new job.
pub open spec fn new_job(
    request: AddRequest,
    id: Seq<char>,
    schedule: ScheduleView,
    range: Option<TimeRange>,
    now: Timestamp,
) -> JobView {
    JobView {
        id,
        name: name_of(request),
        schedule,
        command: string_views(request.command@),
        constraints: ConstraintsView {
            not_during: match range {
                Some(r) => seq![r],
                None => Seq::empty(),
            },
            only_during: Seq::empty(),
            dnd_aware: request.dnd_aware,
            remove_on_success: request.remove_on_success,
            after: opt_text(request.after),
        },
        enabled: true,
        created_at: now,
        created_by: "user"@,
    }
}

/// A new job, given its ID, its schedule, the range that it keeps out of, and the present.
pub fn build_job(
    request: &AddRequest,
    id: String,
    schedule: Schedule,
    range: Option<TimeRange>,
    now: Timestamp,
) -> (r: Job)
    ensures
        r@ == new_job(*request, id@, schedule@, range, now),
{
    let mut not_during: Vec<TimeRange> = Vec::new();
    if let Some(r) = range {
        not_during.push(r);
        assert(not_during@ == seq![r]);
    }
    let r = Job {
        id,
        name: job_name(request),
        schedule,
        command: copy_strings(&request.command),
        constraints: Constraints {
            not_during,
            only_during: Vec::new(),
            dnd_aware: request.dnd_aware,
            remove_on_success: request.remove_on_success,
            after: copy_string(&request.after),
        },
        enabled: true,
        created_at: now,
        created_by: "user".to_owned(),
    };
    assert(r@.constraints.not_during == new_job(
        *request,
        id@,
        schedule@,
        range,
        now,
    ).constraints.not_during);
    r
}

/// The name of a new job: the one given, or its program's.
pub fn job_name(request: &AddRequest) -> (r: String)
    ensures
        r@ == name_of(*request),
{
    match &request.name {
        Some(n) => n.clone(),
        None => if request.command.len() > 0 {
            request.command[0].clone()
        } else {
            "job".to_owned()
        },
    }
}

/// The range that a new job keeps out of, where one is given.
pub open spec fn request_range(request: AddRequest) -> Result<Option<TimeRange>, Fault> {
    match request.not_during {
        None => Ok(None),
        Some(s) => match time_range_of(s@) {
            Ok(range) => Ok(Some(range)),
            Err(f) => Err(f),
        },
    }
}

/// `job` is one that was asked for, made now under an ID of its own, with this schedule.
pub open spec fn is_made(
    job: JobView,
    request: AddRequest,
    schedule: ScheduleView,
    range: Option<TimeRange>,
) -> bool {
    &&& job == new_job(request, job.id, schedule, range, job.created_at)
    &&& is_id_for(job.id, name_of(request))
    &&& is_now(job.created_at)
}

/// `r` is what comes of a request to fire once, at an instant that is read as `at`.
pub open spec fn once_made(
    at: Result<Timestamp, Fault>,
    request: AddRequest,
    r: Result<JobView, ManageFault>,
) -> bool {
    match (at, request_range(request)) {
        (Err(f), _) => r == Err::<JobView, ManageFault>(ManageFault::Time(f)),
        (Ok(_), Err(f)) => r == Err::<JobView, ManageFault>(ManageFault::Time(f)),
        (Ok(at), Ok(range)) => r matches Ok(job) && is_made(
            job,
            request,
            ScheduleView::Once { at, unit: None, at_job: None },
            range,
        ),
    }
}

/// `r` is what comes of a request to fire once, at a time that a text in lower case names.
pub open spec fn once_made_of(
    text: Seq<char>,
    request: AddRequest,
    r: Result<JobView, ManageFault>,
) -> bool {
    match reading(text) {
        Err(f) => r == Err::<JobView, ManageFault>(ManageFault::Time(f)),
        Ok(w) => exists|at: Result<Timestamp, Fault>| #[trigger]
            met_now(w, at) && once_made(at, request, r),
    }
}

/// `r` is what comes of a request.
pub open spec fn made(
    store: JobStore,
    request: AddRequest,
    r: Result<JobView, ManageFault>,
) -> bool {
    match (request_fault(store, request), request.cron, request_range(request)) {
        (Some(f), _, _) => r == Err::<JobView, ManageFault>(f),
        (None, Some(_), Err(f)) => r == Err::<JobView, ManageFault>(ManageFault::Time(f)),
        (None, Some(expr), Ok(range)) => r matches Ok(job) && is_made(
            job,
            request,
            ScheduleView::Cron { expr: expr@, unit: None },
            range,
        ),
        (None, None, _) => once_made_of(lower_text(trimmed(request.once->0@)), request, r),
    }
}

pub open spec fn job_result(r: Result<Job, ManageError>) -> Result<JobView, ManageFault> {
    match r {
        Ok(job) => Ok(job@),
        Err(e) => Err(e@),
    }
}

/// Make the job that a user asks for, as it is before it has a timer.
pub fn cmd_add(store: &JobStore, request: &AddRequest) -> (r: Result<Job, ManageError>)
    ensures
        made(*store, *request, job_result(r)),
        r matches Ok(job) ==> job@.wf(),
{
    if let Err(e) = check_request(store, request) {
        return Err(e);
    }
    let name = job_name(request);
    let id = Job::generate_id(name.as_str());
    let ghost mut read: Result<Timestamp, Fault> = Err(Fault::OutOfRange);
    let schedule = match &request.cron {
        Some(expr) => Schedule::Cron { expr: expr.clone(), unit: None },
        None => match &request.once {
            Some(s) => {
                let at = parse_datetime(s.as_str());
                proof {
                    read = instant_result(at);
                }
                match at {
                    Ok(at) => Schedule::Once { at, unit: None, at_job: None },
                    Err(e) => {
                        let r = Err(ManageError::Time(e));
                        assert(reading(lower_text(trimmed(s@))) is Ok ==> once_made(
                            read,
                            *request,
                            job_result(r),
                        ));
                        return r;
                    },
                }
            },
            None => {
                return Err(ManageError::NoSchedule);
            },
        },
    };
    let range = match &request.not_during {
        Some(s) => match parse_time_range(s.as_str()) {
            Ok(range) => Some(range),
            Err(e) => {
                let r = Err(ManageError::Time(e));
                assert(request.cron is None ==> once_made(read, *request, job_result(r)));
                return r;
            },
        },
        None => None,
    };
    let now = utc_now();
    let r: Result<Job, ManageError> = Ok(build_job(request, id, schedule, range, now));
    assert(request.cron is None ==> once_made(read, *request, job_result(r)));
    r
}

/// `text` tells of a job that was given its timer.
pub open spec fn is_added_text(text: Seq<char>, job: JobView, handle: Seq<char>) -> bool {
    match job.schedule {
        ScheduleView::Cron { .. } => text == "Created recurring job '"@ + job.id
            + "' with systemd timer '"@ + handle + "'"@,
        ScheduleView::Once { at, .. } => exists|time: Seq<char>| #[trigger]
            is_local_text(time, at, Pattern::Second.spec_format()) && text
                == "Created one-off job '"@ + job.id + "' with systemd timer '"@ + handle
                + "' (fires "@ + time + ")"@,
    }
}

/// What to say of a job that was given its timer.
pub fn added_text(job: &Job, handle: &str) -> (r: String)
    requires
        job@.schedule.wf(),
    ensures
        is_added_text(r@, job@, handle@),
{
    match &job.schedule {
        Schedule::Cron { .. } => {
            let mut r = "Created recurring job '".to_owned();
            r.append(job.id.as_str());
            r.append("' with systemd timer '");
            r.append(handle);
            r.append("'");
            r
        },
        Schedule::Once { at, .. } => {
            let time = local_text(*at, Pattern::Second);
            let mut r = "Created one-off job '".to_owned();
            r.append(job.id.as_str());
            r.append("' with systemd timer '");
            r.append(handle);
            r.append("' (fires ");
            r.append(time.as_str());
            r.append(")");
            r
        },
    }
}

/// Keep a new job, with the handle of its timer.
pub fn keep_added(store: &mut JobStore, job: Job, handle: String)
    requires
        old(store).wf(),
    ensures
        final(store).wf(),
        final(store)@ == old(store)@.insert(
            job@.id,
            JobView { schedule: job@.schedule.with_handle(handle@), ..job@ },
        ),
        old(store).keyed_by_id() ==> final(store).keyed_by_id(),
        old(store).jobs_wf() && job@.wf() ==> final(store).jobs_wf(),
{
    let mut job = job;
    job.schedule.set_handle(handle);
    store.add(job);
}

/// A job that was added and is removed leaves the jobs as they were, where its ID was new.
pub proof fn law_remove_undoes_add(jobs: Map<Seq<char>, JobView>, job: JobView)
    requires
        !jobs.contains_key(job.id),
    ensures
        jobs.insert(job.id, job).contains_key(job.id),
        jobs.insert(job.id, job)[job.id] == job,
        jobs.insert(job.id, job).remove(job.id) == jobs,
{
    assert(jobs.insert(job.id, job).remove(job.id) =~= jobs);
}

/// A job that was granted is the job that was asked for, field by field.
pub proof fn law_granted_job_is_what_was_asked(store: JobStore, request: AddRequest, job: JobView)
    requires
        made(store, request, Ok(job)),
    ensures
        job.command.len() == request.command@.len(),
        forall|i: int|
            0 <= i < job.command.len() ==> (#[trigger] job.command[i]) == request.command@[i]@,
        request.name matches Some(n) ==> job.name == n@,
        request.name is None && request.command@.len() > 0 ==> job.name == request.command@[0]@,
        request.name is None && request.command@.len() == 0 ==> job.name == "job"@,
        job.enabled,
        job.created_by == "user"@,
        is_now(job.created_at),
        is_id_for(job.id, job.name),
        job.constraints.remove_on_success == request.remove_on_success,
        job.constraints.dnd_aware == request.dnd_aware,
        request.after is None ==> job.constraints.after is None,
        request.after matches Some(dep) ==> job.constraints.after == Some(dep@),
        job.constraints.only_during.len() == 0,
        request.not_during is None ==> job.constraints.not_during.len() == 0,
        request.not_during matches Some(s) ==> job.constraints.not_during.len() == 1
            && time_range_of(s@) == Ok::<TimeRange, Fault>(job.constraints.not_during[0]),
        request.cron matches Some(expr) ==> job.schedule == (ScheduleView::Cron {
            expr: expr@,
            unit: None,
        }),
        request.cron is None ==> (job.schedule matches ScheduleView::Once {
            at,
            unit: None,
            at_job: None,
        } && (reading(lower_text(trimmed(request.once->0@))) matches Ok(w) && met_now(w, Ok(at)))),
{
    if request.cron is None {
        let w = reading(lower_text(trimmed(request.once->0@)))->Ok_0;
        let at = choose|at: Result<Timestamp, Fault>| #[trigger]
            met_now(w, at) && once_made(at, request, Ok(job));
        assert(at is Ok);
        assert(met_now(w, Ok(at->Ok_0)));
    }
}

/// A request without a schedule is refused as such, one that names an unknown job to follow is
/// told so, and a range or a time that cannot be read is said to be that. A recurring job whose
/// range can be read, and that follows no job or a known one, is granted.
pub proof fn law_requests_are_refused_for_cause(
    store: JobStore,
    request: AddRequest,
    r: Result<JobView, ManageFault>,
)
    requires
        made(store, request, r),
    ensures
        r == Err::<JobView, ManageFault>(ManageFault::NoSchedule) <==> request.cron is None
            && request.once is None,
        (request.cron is Some || request.once is Some) ==> (request.after matches Some(dep) ==> (!(
        store@.contains_key(dep@) || exists|i: int|
            0 <= i < store.kept().len() && (#[trigger] store.kept()[i]).name == dep@) ==> r == Err::<
            JobView,
            ManageFault,
        >(ManageFault::UnknownDependency(dep@)))),
        request.cron is Some && (request.after matches Some(dep) ==> store@.contains_key(dep@)
            || exists|i: int|
            0 <= i < store.kept().len() && (#[trigger] store.kept()[i]).name == dep@) ==> match request.not_during {
            None => r is Ok,
            Some(s) => match time_range_of(s@) {
                Ok(_) => r is Ok,
                Err(f) => r == Err::<JobView, ManageFault>(ManageFault::Time(f)),
            },
        },
        !(r matches Err(ManageFault::NotFound(_))),
        !(r matches Err(ManageFault::OneOff)),
{
}

/// A change does what it names: a range that is named takes the place of all that there were, a
/// clearing takes them all away, and name, heed of Do Not Disturb and cron expression are as
/// named. Of what a change does not name, nothing changes.
pub proof fn law_edit_does_what_it_names(job: JobView, edit: Edit)
    requires
        edit_fault(job, edit) is None,
    ensures
        ({
            let new = edited(job, edit, edit_range(edit)->Ok_0);
            &&& edit.clear_not_during ==> new.constraints.not_during.len() == 0
            &&& !edit.clear_not_during && edit.not_during is None ==> new.constraints.not_during
                == job.constraints.not_during
            &&& !edit.clear_not_during ==> (edit.not_during matches Some(s)
                ==> new.constraints.not_during.len() == 1 && time_range_of(s@) == Ok::<
                TimeRange,
                Fault,
            >(new.constraints.not_during[0]))
            &&& edit.name matches Some(n) ==> new.name == n@
            &&& edit.name is None ==> new.name == job.name
            &&& edit.dnd_aware matches Some(d) ==> new.constraints.dnd_aware == d
            &&& edit.dnd_aware is None ==> new.constraints.dnd_aware == job.constraints.dnd_aware
            &&& edit.cron matches Some(expr) ==> new.schedule == (ScheduleView::Cron {
                expr: expr@,
                unit: Some("usched-"@ + job.id),
            })
            &&& edit.cron is None ==> new.schedule == job.schedule
            &&& new.id == job.id && new.command == job.command && new.enabled == job.enabled
            &&& new.created_at == job.created_at && new.created_by == job.created_by
            &&& new.constraints.only_during == job.constraints.only_during
            &&& new.constraints.remove_on_success == job.constraints.remove_on_success
            &&& new.constraints.after == job.constraints.after
        }),
{
}

/// A change is refused where the range that it names cannot be read, unless it clears the ranges
/// anyway, and where it gives a cron expression to a job that fires once; nowhere else.
pub proof fn law_edits_are_refused_for_cause(job: JobView, edit: Edit)
    ensures
        edit.clear_not_during || edit.not_during is None ==> edit_fault(job, edit) == if edit.cron
            is Some && job.schedule is Once {
            Some(ManageFault::OneOff)
        } else {
            None
        },
        !edit.clear_not_during ==> (edit.not_during matches Some(s) ==> match time_range_of(s@) {
            Err(f) => edit_fault(job, edit) == Some(ManageFault::Time(f)),
            Ok(_) => edit_fault(job, edit) == if edit.cron is Some && job.schedule is Once {
                Some(ManageFault::OneOff)
            } else {
                None
            },
        }),
{
}

/// Each thing that a change names is told, and nothing else: the name, the heed of Do Not
/// Disturb, the ranges and the cron expression, in this order.
pub proof fn law_changes_are_told(edit: Edit)
    ensures
        ({
            let told = change_texts(edit);
            let name = match edit.name {
                Some(n) => seq!["name → "@ + n@],
                None => Seq::<Seq<char>>::empty(),
            };
            let dnd = match edit.dnd_aware {
                Some(d) => if d {
                    seq!["dnd_aware → "@ + "true"@]
                } else {
                    seq!["dnd_aware → "@ + "false"@]
                },
                None => Seq::<Seq<char>>::empty(),
            };
            let ranges = if edit.clear_not_during {
                seq!["not_during → cleared"@]
            } else {
                match edit.not_during {
                    Some(s) => seq!["not_during → "@ + s@],
                    None => Seq::<Seq<char>>::empty(),
                }
            };
            let cron = match edit.cron {
                Some(expr) => seq!["cron → "@ + expr@],
                None => Seq::<Seq<char>>::empty(),
            };
            told == name + dnd + ranges + cron
        }),
{
    reveal_with_fuel(those, 5);
    let items = change_items(edit);
    assert(items.drop_last() == items.take(3));
    assert(items.take(3).drop_last() == items.take(2));
    assert(items.take(2).drop_last() == items.take(1));
    assert(items.take(1).drop_last() == items.take(0));
    let e = Seq::<Seq<char>>::empty();
    assert(those(items.take(0)) == e);
    let a = those(items.take(1));
    let b = those(items.take(2));
    let c = those(items.take(3));
    let name = match edit.name {
        Some(n) => seq!["name → "@ + n@],
        None => e,
    };
    let dnd = match edit.dnd_aware {
        Some(d) => if d {
            seq!["dnd_aware → "@ + "true"@]
        } else {
            seq!["dnd_aware → "@ + "false"@]
        },
        None => e,
    };
    let ranges = if edit.clear_not_during {
        seq!["not_during → cleared"@]
    } else {
        match edit.not_during {
            Some(s) => seq!["not_during → "@ + s@],
            None => e,
        }
    };
    assert(a == name);
    assert(b == a + dnd);
    assert(c == b + ranges);
}

/// Enabling and disabling a job changes that and nothing else.
pub proof fn law_toggling_changes_nothing_else(job: JobView, enabled: bool)
    ensures
        toggled(job, enabled).enabled == enabled,
        toggled(job, enabled).id == job.id,
        toggled(job, enabled).name == job.name,
        toggled(job, enabled).schedule == job.schedule,
        toggled(job, enabled).command == job.command,
        toggled(job, enabled).constraints == job.constraints,
        toggled(job, enabled).created_at == job.created_at,
        toggled(job, enabled).created_by == job.created_by,
{
}

/// What is told of a new job names its ID and its timer, and when it fires where it does so
/// once.
pub proof fn law_added_job_is_told(text: Seq<char>, job: JobView, handle: Seq<char>)
    requires
        is_added_text(text, job, handle),
    ensures
        job.schedule is Cron ==> text == "Created recurring job '"@ + job.id
            + "' with systemd timer '"@ + handle + "'"@,
        job.schedule matches ScheduleView::Once { at, .. } ==> exists|time: Seq<char>| #[trigger]
            is_local_text(time, at, "%Y-%m-%d %H:%M:%S"@) && text == "Created one-off job '"@
                + job.id + "' with systemd timer '"@ + handle + "' (fires "@ + time + ")"@,
{
    if let ScheduleView::Once { at, .. } = job.schedule {
        let time = choose|time: Seq<char>| #[trigger]
            is_local_text(time, at, Pattern::Second.spec_format()) && text
                == "Created one-off job '"@ + job.id + "' with systemd timer '"@ + handle
                + "' (fires "@ + time + ")"@;
        assert(is_local_text(time, at, "%Y-%m-%d %H:%M:%S"@));
    }
}

/// What a user is told of a refused request.
pub proof fn law_refusals_are_told(id: Seq<char>, f: Fault)
    ensures
        ManageFault::NotFound(id).message() == "Job '"@ + id + "' not found"@,
        ManageFault::UnknownDependency(id).message() == "Dependency job '"@ + id
            + "' not found. Use a valid job ID or name."@,
        ManageFault::Time(f).message() == f.message(),
        ManageFault::NoSchedule.message() == "Must specify either --cron or --once"@,
        ManageFault::OneOff.message()
            == "Cannot change a one-off job to cron. Remove and re-add instead."@,
{
}

/// Whatever job is made for a request, it has the schedule, the command and the conditions that
/// were asked for.
pub proof fn law_add_end_to_end(
    store: &JobStore,
    request: &AddRequest,
    r: Result<Job, ManageError>,
)
    requires
        call_ensures(cmd_add, (store, request), r),
        r is Ok,
    ensures
        ({
            let job = r->Ok_0;
            &&& job.constraints.remove_on_success == request.remove_on_success
            &&& job.constraints.dnd_aware == request.dnd_aware
            &&& job.constraints.only_during@.len() == 0
            &&& (job.constraints.after is Some <==> request.after is Some)
            &&& request.after matches Some(dep) ==> job.constraints.after->0@ == dep@
            &&& job.constraints.not_during@.len() == if request.not_during is Some {
                1int
            } else {
                0int
            }
            &&& job.enabled
            &&& job.command@.len() == request.command@.len()
            &&& forall|i: int|
                0 <= i < job.command@.len() ==> (#[trigger] job.command@[i])@
                    == request.command@[i]@
            &&& request.cron matches Some(expr) ==> (job.schedule matches Schedule::Cron {
                expr: e,
                unit: None,
            } && e@ == expr@)
            &&& request.cron is None ==> (job.schedule matches Schedule::Once {
                unit: None,
                at_job: None,
                ..
            })
        }),
{
    let job = r->Ok_0;
    assert(made(*store, *request, Ok(job@)));
    law_granted_job_is_what_was_asked(*store, *request, job@);
    assert forall|i: int| 0 <= i < job.command@.len() implies (#[trigger] job.command@[i])@
        == request.command@[i]@ by {
        assert(job@.command[i] == job.command@[i]@);
    }
}

} // verus!

//! The scheduler of the operating system that owns a job's lifecycle.
use crate::cron_convert::CronError;
use crate::job::{Job, Schedule, ScheduleView};
use crate::systemd::{
    can_schedule, create_oneshot_timer, create_timer, creates_timer, disable_steps, disable_timer,
    enable_step, enable_timer, plan_result, remove_steps, remove_timer, step_views, verify_timer,
    Plan, Step, TimerReport, UnitEnv,
};
use vstd::prelude::*;

verus! {

/// The scheduler of the operating system.
#[derive(Clone, Copy, Debug, PartialEq, Eq, Structural)]
pub enum Backend {
    Systemd,
}

impl Backend {
    /// What it takes to schedule a job; the unit of the plan is the handle to keep with the
    /// schedule.
    pub fn schedule(self, job: &Job, env: &UnitEnv) -> (r: Result<Plan, CronError>)
        requires
            job@.schedule.wf(),
            can_schedule(job@.schedule),
        ensures
            creates_timer(plan_result(r), job@, env@),
    {
        match (self, &job.schedule) {
            (Backend::Systemd, Schedule::Cron { expr, .. }) => {
                create_timer(job.id.as_str(), expr.as_str(), &job.command, env)
            },
            (Backend::Systemd, Schedule::Once { at, .. }) => {
                Ok(create_oneshot_timer(job.id.as_str(), *at, &job.command, env))
            },
        }
    }

    /// What it takes to remove what a handle names.
    pub fn remove(self, handle: &str, systemd_dir: &str) -> (r: Vec<Step>)
        ensures
            step_views(r@) == remove_steps(handle@, systemd_dir@),
    {
        match self {
            Backend::Systemd => remove_timer(handle, systemd_dir),
        }
    }

    /// What it takes to enable what a handle names.
    pub fn enable(self, handle: &str) -> (r: Vec<Step>)
        ensures
            step_views(r@) == seq![enable_step(handle@)],
    {
        match self {
            Backend::Systemd => enable_timer(handle),
        }
    }

    /// What it takes to disable what a handle names.
    pub fn disable(self, handle: &str) -> (r: Vec<Step>)
        ensures
            step_views(r@) == disable_steps(handle@),
    {
        match self {
            Backend::Systemd => disable_timer(handle),
        }
    }

    /// Whether what was found of a timer shows it healthy.
    pub fn verify(self, report: &TimerReport) -> (r: bool)
        ensures
            r == report.healthy(),
    {
        match self {
            Backend::Systemd => verify_timer(report),
        }
    }
}

impl Schedule {
    /// The scheduler that owns a job with this schedule.
    pub fn backend(&self) -> (r: Backend)
        ensures
            r == Backend::Systemd,
    {
        match self {
            Schedule::Cron { .. } => Backend::Systemd,
            Schedule::Once { .. } => Backend::Systemd,
        }
    }

    /// The name of the unit that fires the job.
    pub fn handle(&self) -> (r: Option<&str>)
        ensures
            r is Some <==> self@.handle() is Some,
            r matches Some(h) ==> self@.handle() == Some(h@),
    {
        let unit = match self {
            Schedule::Cron { unit, .. } => unit,
            Schedule::Once { unit, .. } => unit,
        };
        match unit {
            Some(h) => Some(h.as_str()),
            None => None,
        }
    }

    /// Record the name of the unit that fires the job.
    pub fn set_handle(&mut self, h: String)
        ensures
            final(self)@ == old(self)@.with_handle(h@),
    {
        match self {
            Schedule::Cron { unit, .. } => {
                *unit = Some(h);
            },
            Schedule::Once { unit, .. } => {
                *unit = Some(h);
            },
        }
    }
}

/// The handle that was recorded is the handle that is found, and recording it changes
/// nothing else.
pub proof fn law_handle_is_kept(s: ScheduleView, h: Seq<char>, k: Seq<char>)
    ensures
        s.with_handle(h).handle() == Some(h),
        s.with_handle(h).with_handle(k) == s.with_handle(k),
        s.handle() == Some(h) ==> s.with_handle(h) == s,
        s.with_handle(h).wf() == s.wf(),
{
}

} // verus!

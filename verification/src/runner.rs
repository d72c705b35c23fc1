//! From a timer that fired to a command that ran: whether a job runs at all, and what follows.
use crate::history::{execution_views, Execution, ExecutionView};
use crate::job::{
    find_range, first_range, in_some_range, lemma_first_range, Job, JobView,
};
use crate::moment::{
    hour_minute, hour_minute_text, is_now, is_shown_at, local_clock, utc_now, LocalDateTime, TimeOfDay, Timestamp,
    DAY_SECS, MAX_SECS, MIN_SECS,
};
use crate::number::{decimal, signed_text};
use crate::store::{JobStore, State};
use crate::systemd::{remove_steps, step_views, Step, StepView};
use crate::text::same;
use vstd::prelude::*;

verus! {

/// Whether a job runs.
#[derive(Debug, PartialEq, Eq)]
pub enum Decision {
    Run,
    Skip(SkipReason),
}

/// Why a job does not run.
#[derive(Debug, PartialEq, Eq)]
pub enum SkipReason {
    Disabled,
    DndActive,
    NotDuring { start: String, end: String },
    NotInOnlyDuring,
    AfterMissingHistory(String),
    AfterFailed { dep: String, exit: i32 },
}

#[verifier::ext_equal]
pub enum DecisionView {
    Run,
    Skip(SkipView),
}

#[verifier::ext_equal]
pub enum SkipView {
    Disabled,
    DndActive,
    NotDuring { start: Seq<char>, end: Seq<char> },
    NotInOnlyDuring,
    AfterMissingHistory(Seq<char>),
    AfterFailed { dep: Seq<char>, exit: i32 },
}

impl View for Decision {
    type V = DecisionView;

    open spec fn view(&self) -> DecisionView {
        match *self {
            Decision::Run => DecisionView::Run,
            Decision::Skip(s) => DecisionView::Skip(s@),
        }
    }
}

impl View for SkipReason {
    type V = SkipView;

    open spec fn view(&self) -> SkipView {
        match *self {
            SkipReason::Disabled => SkipView::Disabled,
            SkipReason::DndActive => SkipView::DndActive,
            SkipReason::NotDuring { start, end } => SkipView::NotDuring {
                start: start@,
                end: end@,
            },
            SkipReason::NotInOnlyDuring => SkipView::NotInOnlyDuring,
            SkipReason::AfterMissingHistory(dep) => SkipView::AfterMissingHistory(dep@),
            SkipReason::AfterFailed { dep, exit } => SkipView::AfterFailed { dep: dep@, exit },
        }
    }
}

impl SkipView {
    /// The reason as it is recorded.
    pub open spec fn history_reason(self) -> Seq<char> {
        match self {
            SkipView::Disabled => "disabled"@,
            SkipView::DndActive => "dnd"@,
            SkipView::NotDuring { start, end } => "not_during "@ + start + "-"@ + end,
            SkipView::NotInOnlyDuring => "not in only_during range"@,
            SkipView::AfterMissingHistory(dep) => "after: "@ + dep + " has no history"@,
            SkipView::AfterFailed { dep, exit } => "after: "@ + dep + " exit "@ + decimal(
                exit as int,
            ),
        }
    }
}

impl SkipReason {
    /// The reason as it is recorded.
    pub fn as_history_reason(&self) -> (r: String)
        ensures
            r@ == self@.history_reason(),
    {
        match self {
            SkipReason::Disabled => "disabled".to_owned(),
            SkipReason::DndActive => "dnd".to_owned(),
            SkipReason::NotDuring { start, end } => {
                let mut r = "not_during ".to_owned();
                r.append(start.as_str());
                r.append("-");
                r.append(end.as_str());
                r
            },
            SkipReason::NotInOnlyDuring => "not in only_during range".to_owned(),
            SkipReason::AfterMissingHistory(dep) => {
                let mut r = "after: ".to_owned();
                r.append(dep.as_str());
                r.append(" has no history");
                r
            },
            SkipReason::AfterFailed { dep, exit } => {
                let mut r = "after: ".to_owned();
                r.append(dep.as_str());
                r.append(" exit ");
                r.append(signed_text(*exit as i64).as_str());
                r
            },
        }
    }
}

/// Why a lookup in the history failed.
#[derive(Debug)]
pub struct HistoryError {
    pub message: String,
}

/// A lookup of how the last execution of a job ended.
pub trait HistoryLookup {
    /// The exit code of the last execution of the job with this ID or name; none where there
    /// is no record of one, or the last record is of a skipped one.
    fn last_exit_for(&self, job_ref: &str) -> Result<Option<i32>, HistoryError>;
}

/// The exit code in the first of the records that is of a job with this ID or name.
pub open spec fn first_exit(executions: Seq<ExecutionView>, job_ref: Seq<char>) -> Option<i32>
    decreases executions.len(),
{
    if executions.len() == 0 {
        None
    } else if executions[0].is_of(job_ref) {
        executions[0].exit_code
    } else {
        first_exit(executions.skip(1), job_ref)
    }
}

/// Records of the history, the last first.
#[derive(Debug)]
pub struct HistoryDb {
    pub executions: Vec<Execution>,
}

impl HistoryLookup for HistoryDb {
    fn last_exit_for(&self, job_ref: &str) -> (r: Result<Option<i32>, HistoryError>)
        ensures
            r == Ok::<Option<i32>, HistoryError>(
                first_exit(execution_views(self.executions@), job_ref@),
            ),
    {
        let ghost all = execution_views(self.executions@);
        let mut i: usize = 0;
        assert(all.skip(0) == all);
        while i < self.executions.len()
            invariant
                i <= self.executions@.len(),
                all == execution_views(self.executions@),
                first_exit(all.skip(i as int), job_ref@) == first_exit(all, job_ref@),
            decreases self.executions.len() - i,
        {
            let e = &self.executions[i];
            proof {
                assert(all.skip(i as int)[0] == e@);
                assert(all.skip(i as int).skip(1) == all.skip(i + 1));
            }
            if same(e.job_id.as_str(), job_ref) || same(e.job_name.as_str(), job_ref) {
                return Ok(e.exit_code);
            }
            i += 1;
        }
        Ok(None)
    }
}

/// The present: an instant, and the time of day that local clocks show.
#[derive(Clone, Copy, Debug, PartialEq, Eq, Structural)]
pub struct Present {
    pub instant: Timestamp,
    pub time: TimeOfDay,
}

impl Present {
    pub open spec fn wf(self) -> bool {
        self.instant.wf() && self.time.wf()
    }

    /// Whether this is what clocks show at an instant.
    pub open spec fn is_at(self, instant: Timestamp) -> bool {
        self.instant == instant && exists|d: LocalDateTime| #[trigger]
            is_shown_at(d, instant) && d.time == self.time
    }

    /// `r` is the present at an instant: there is one unless the instant lies so near the ends
    /// of the dates that can be named that the local date may have no name.
    pub open spec fn shown_at(r: Option<Present>, instant: Timestamp) -> bool {
        match r {
            Some(p) => instant.zone_safe() && p.wf() && p.is_at(instant),
            None => !instant.zone_safe(),
        }
    }

    /// What the clock shows; nothing where it shows a day so late that the local date may
    /// have no name.
    pub fn now() -> (r: Option<Present>)
        ensures
            exists|instant: Timestamp| #[trigger]
                is_now(instant) && Present::shown_at(r, instant),
    {
        let instant = utc_now();
        let r = Present::at(instant);
        assert(is_now(instant));
        r
    }

    /// The present at an instant; nothing where the instant lies so near the ends of the dates
    /// that can be named that the local date may have no name.
    pub fn at(instant: Timestamp) -> (r: Option<Present>)
        requires
            instant.wf(),
        ensures
            Present::shown_at(r, instant),
    {
        if instant.secs < MIN_SECS + DAY_SECS || instant.secs > MAX_SECS - DAY_SECS {
            return None;
        }
        let local = local_clock(instant);
        assert(is_shown_at(local, instant));
        Some(Present { instant, time: local.time })
    }
}

/// The decision that a job's own settings give; none where a past execution of another job
/// decides.
pub open spec fn early_decision(job: JobView, state: State, now: Present) -> Option<DecisionView> {
    let c = job.constraints;
    let time = now.time.spec_to_minute();
    if !job.enabled {
        Some(DecisionView::Skip(SkipView::Disabled))
    } else if c.dnd_aware && state.dnd_at(now.instant) {
        Some(DecisionView::Skip(SkipView::DndActive))
    } else if first_range(c.not_during, time) is Some {
        let range = c.not_during[first_range(c.not_during, time)->0];
        Some(
            DecisionView::Skip(
                SkipView::NotDuring {
                    start: hour_minute_text(range.start.secs as int),
                    end: hour_minute_text(range.end.secs as int),
                },
            ),
        )
    } else if c.only_during.len() > 0 && !in_some_range(c.only_during, time) {
        Some(DecisionView::Skip(SkipView::NotInOnlyDuring))
    } else if c.after is None {
        Some(DecisionView::Run)
    } else {
        None
    }
}

/// The decision that the exit code of the job's dependency gives.
pub open spec fn late_decision(dep: Seq<char>, exit: Option<i32>) -> DecisionView {
    match exit {
        None => DecisionView::Skip(SkipView::AfterMissingHistory(dep)),
        Some(code) => if code == 0 {
            DecisionView::Run
        } else {
            DecisionView::Skip(SkipView::AfterFailed { dep, exit: code })
        },
    }
}

/// The decision, given the exit code of the job's dependency.
pub open spec fn decision(job: JobView, state: State, now: Present, exit: Option<i32>) -> DecisionView {
    match early_decision(job, state, now) {
        Some(d) => d,
        None => late_decision(job.constraints.after->0, exit),
    }
}

/// The decision that a job's own settings give; none where a past execution of another job
/// decides.
pub fn decide_early(job: &Job, state: &State, now: Present) -> (r: Option<Decision>)
    requires
        job@.constraints.wf(),
    ensures
        r is Some <==> early_decision(job@, *state, now) is Some,
        r matches Some(d) ==> early_decision(job@, *state, now) == Some(d@),
{
    if !job.enabled {
        return Some(Decision::Skip(SkipReason::Disabled));
    }
    if job.constraints.dnd_aware && state.is_dnd_active_at(now.instant) {
        return Some(Decision::Skip(SkipReason::DndActive));
    }
    let time = now.time.to_minute();
    if let Some(i) = find_range(&job.constraints.not_during, time) {
        let range = job.constraints.not_during[i];
        assert(job@.constraints.not_during[i as int].wf());
        return Some(
            Decision::Skip(
                SkipReason::NotDuring {
                    start: hour_minute(range.start),
                    end: hour_minute(range.end),
                },
            ),
        );
    }
    proof {
        lemma_first_range(job.constraints.only_during@, time);
    }
    if job.constraints.only_during.len() > 0 && find_range(
        &job.constraints.only_during,
        time,
    ).is_none() {
        return Some(Decision::Skip(SkipReason::NotInOnlyDuring));
    }
    if job.constraints.after.is_none() {
        return Some(Decision::Run);
    }
    None
}

/// The decision that the exit code of the job's dependency gives.
pub fn decide_late(dep: &str, exit: Option<i32>) -> (r: Decision)
    ensures
        r@ == late_decision(dep@, exit),
{
    match exit {
        None => Decision::Skip(SkipReason::AfterMissingHistory(dep.to_owned())),
        Some(code) => if code == 0 {
            Decision::Run
        } else {
            Decision::Skip(SkipReason::AfterFailed { dep: dep.to_owned(), exit: code })
        },
    }
}

/// `r` is what follows from what the history said of the job's dependency.
pub open spec fn follows(
    dep: Seq<char>,
    reply: Result<Option<i32>, HistoryError>,
    r: Result<Decision, HistoryError>,
) -> bool {
    match reply {
        Ok(exit) => r matches Ok(d) && d@ == late_decision(dep, exit),
        Err(e) => r == Err::<Decision, HistoryError>(e),
    }
}

/// Decide whether a job runs now. The history is asked only where all else lets it run.
pub fn evaluate<H: HistoryLookup>(job: &Job, state: &State, history: &H, now: Present) -> (r:
    Result<Decision, HistoryError>)
    requires
        job@.constraints.wf(),
    ensures
        early_decision(job@, *state, now) matches Some(d) ==> r matches Ok(made) && made@ == d,
        early_decision(job@, *state, now) is None ==> exists|
            dep: &str,
            reply: Result<Option<i32>, HistoryError>,
        |
            dep@ == job@.constraints.after->0 && #[trigger] call_ensures(
                H::last_exit_for,
                (history, dep),
                reply,
            ) && follows(dep@, reply, r),
{
    if let Some(d) = decide_early(job, state, now) {
        return Ok(d);
    }
    match &job.constraints.after {
        Some(dep) => {
            let name = dep.as_str();
            let reply = history.last_exit_for(name);
            let ghost said = reply;
            let r = match reply {
                Ok(exit) => Ok(decide_late(name, exit)),
                Err(e) => Err(e),
            };
            assert(call_ensures(H::last_exit_for, (history, name), said));
            assert(follows(name@, said, r));
            r
        },
        None => Ok(Decision::Run),
    }
}

/// A job runs where it is enabled, Do Not Disturb does not hold it up, the time lies within
/// none of the ranges that it keeps out of and within one of those that it keeps to, and the
/// last execution of the job that it follows succeeded. Nowhere else.
pub proof fn law_runs_iff_all_constraints_hold(
    job: JobView,
    state: State,
    now: Present,
    exit: Option<i32>,
)
    ensures
        decision(job, state, now, exit) == DecisionView::Run <==> {
            let c = job.constraints;
            let time = now.time.spec_to_minute();
            &&& job.enabled
            &&& !(c.dnd_aware && state.dnd_at(now.instant))
            &&& !in_some_range(c.not_during, time)
            &&& c.only_during.len() == 0 || in_some_range(c.only_during, time)
            &&& c.after is None || exit == Some(0i32)
        },
{
    lemma_first_range(job.constraints.not_during, now.time.spec_to_minute());
}

/// A job that is disabled is skipped as such, whatever else holds.
pub proof fn law_disabled_comes_first(job: JobView, state: State, now: Present, exit: Option<i32>)
    requires
        !job.enabled,
    ensures
        decision(job, state, now, exit) == DecisionView::Skip(SkipView::Disabled),
{
}

/// A job that does not mind Do Not Disturb is decided on as if that were off.
pub proof fn law_dnd_is_ignored_where_not_minded(
    job: JobView,
    state: State,
    now: Present,
    exit: Option<i32>,
)
    requires
        !job.constraints.dnd_aware,
    ensures
        decision(job, state, now, exit) == decision(job, State { dnd_until: None }, now, exit),
{
}

/// Why a job could not be run.
#[derive(Debug)]
pub enum RunError {
    /// There is no job with this ID.
    NotFound(String),
    /// The history could not be asked.
    History(HistoryError),
    /// The job with this ID has no command.
    EmptyCommand(String),
}

impl RunError {
    /// What a user is told.
    pub open spec fn spec_message(self) -> Seq<char> {
        match self {
            RunError::NotFound(id) => "Job '"@ + id@ + "' not found"@,
            RunError::History(e) => e.message@,
            RunError::EmptyCommand(id) => "Job '"@ + id@ + "' has empty command"@,
        }
    }

    /// What a user is told.
    pub fn message(&self) -> (r: String)
        ensures
            r@ == self.spec_message(),
    {
        match self {
            RunError::NotFound(id) => {
                let mut r = "Job '".to_owned();
                r.append(id.as_str());
                r.append("' not found");
                r
            },
            RunError::History(e) => e.message.clone(),
            RunError::EmptyCommand(id) => {
                let mut r = "Job '".to_owned();
                r.append(id.as_str());
                r.append("' has empty command");
                r
            },
        }
    }
}

/// A job that is to be skipped: the reason to record, and what to say.
#[derive(Debug)]
pub struct Skipped {
    pub reason: String,
    pub message: String,
}

/// What to say of a job that is skipped.
pub open spec fn skip_text(job: JobView, reason: Seq<char>) -> Seq<char> {
    "[usched] skipping job '"@ + job.id + "' ("@ + job.name + "): "@ + reason
}

/// Whether a decision is carried out: a job that is to be skipped is, for that reason.
pub open spec fn carried_out(job: JobView, d: DecisionView, skipped: Option<Skipped>) -> bool {
    match d {
        DecisionView::Run => skipped is None,
        DecisionView::Skip(s) => skipped matches Some(k) && k.reason@ == s.history_reason()
            && k.message@ == skip_text(job, s.history_reason()),
    }
}

/// Begin to run a job: find it and decide whether it runs. `force` lets it run in any case.
/// What comes back is the job, and why it is skipped if it is.
pub fn begin_run<H: HistoryLookup>(
    store: &JobStore,
    state: &State,
    history: &H,
    job_id: &str,
    force: bool,
    now: Present,
) -> (r: Result<(Job, Option<Skipped>), RunError>)
    requires
        store@.contains_key(job_id@) ==> store@[job_id@].constraints.wf(),
    ensures
        r matches Err(RunError::NotFound(id)) ==> id@ == job_id@,
        r matches Err(RunError::NotFound(_)) <==> !store@.contains_key(job_id@),
        r matches Ok((job, _)) ==> job@ == store@[job_id@],
        !(r matches Err(RunError::EmptyCommand(_))),
        store@.contains_key(job_id@) && force ==> r matches Ok((_, None)),
        store@.contains_key(job_id@) && !force ==> match early_decision(
            store@[job_id@],
            *state,
            now,
        ) {
            Some(d) => r matches Ok((_, skipped)) && carried_out(store@[job_id@], d, skipped),
            None => exists|dep: &str, reply: Result<Option<i32>, HistoryError>|
                dep@ == store@[job_id@].constraints.after->0 && #[trigger] call_ensures(
                    H::last_exit_for,
                    (history, dep),
                    reply,
                ) && match reply {
                    Ok(exit) => r matches Ok((_, skipped)) && carried_out(
                        store@[job_id@],
                        late_decision(dep@, exit),
                        skipped,
                    ),
                    Err(e) => r matches Err(RunError::History(said)) && said == e,
                },
        },
{
    let job = match store.get(job_id) {
        Some(job) => job.clone(),
        None => {
            return Err(RunError::NotFound(job_id.to_owned()));
        },
    };
    if force {
        return Ok((job, None));
    }
    let made = match evaluate(&job, state, history, now) {
        Ok(d) => d,
        Err(e) => {
            return Err(RunError::History(e));
        },
    };
    match made {
        Decision::Run => Ok((job, None)),
        Decision::Skip(reason) => {
            let text = reason.as_history_reason();
            let mut message = "[usched] skipping job '".to_owned();
            message.append(job.id.as_str());
            message.append("' (");
            message.append(job.name.as_str());
            message.append("): ");
            message.append(text.as_str());
            Ok((job, Some(Skipped { reason: text, message })))
        },
    }
}

/// The program and the arguments of a job's command.
pub fn command_of(job: &Job) -> (r: Result<(&String, Vec<&String>), RunError>)
    ensures
        r is Ok <==> job@.command.len() > 0,
        r matches Ok((program, args)) ==> program@ == job@.command[0] && args@.map_values(
            |a: &String| a@,
        ) == job@.command.skip(1),
        r matches Err(e) ==> e matches RunError::EmptyCommand(id) && id@ == job@.id,
{
    if job.command.len() == 0 {
        return Err(RunError::EmptyCommand(job.id.clone()));
    }
    let mut args: Vec<&String> = Vec::new();
    let mut i: usize = 1;
    while i < job.command.len()
        invariant
            1 <= i <= job.command@.len(),
            args@.len() == i - 1,
            forall|j: int| 0 <= j < i - 1 ==> (#[trigger] args@[j])@ == job.command@[j + 1]@,
        decreases job.command.len() - i,
    {
        args.push(&job.command[i]);
        i += 1;
    }
    assert(args@.map_values(|a: &String| a@) == job@.command.skip(1));
    Ok((&job.command[0], args))
}

/// The exit code of a command: -1 where a signal ended it.
pub fn exit_code_of(code: Option<i32>) -> (r: i32)
    ensures
        r == match code {
            Some(c) => c,
            None => -1i32,
        },
{
    match code {
        Some(c) => c,
        None => -1,
    }
}

/// What follows the end of a job's command.
#[derive(Debug)]
pub struct Ended {
    /// What to say of a command that failed.
    pub failure: Option<String>,
    /// What to say of a job that is to be removed.
    pub removal: Option<String>,
}

/// What follows the end of a job's command: a failure is told, and a job that is to be
/// removed on success is, where there was one.
pub fn end_run(job: &Job, exit_code: i32) -> (r: Ended)
    ensures
        r.failure is Some <==> exit_code != 0,
        r.failure matches Some(t) ==> t@ == "[usched] job '"@ + job@.id + "' ("@ + job@.name
            + ") exited with code "@ + decimal(exit_code as int),
        r.removal is Some <==> job@.constraints.remove_on_success && exit_code == 0,
        r.removal matches Some(t) ==> t@ == "[usched] job '"@ + job@.id
            + "' succeeded; auto-removing"@,
{
    let failure = if exit_code != 0 {
        let mut t = "[usched] job '".to_owned();
        t.append(job.id.as_str());
        t.append("' (");
        t.append(job.name.as_str());
        t.append(") exited with code ");
        t.append(signed_text(exit_code as i64).as_str());
        Some(t)
    } else {
        None
    };
    let removal = if job.constraints.remove_on_success && exit_code == 0 {
        let mut t = "[usched] job '".to_owned();
        t.append(job.id.as_str());
        t.append("' succeeded; auto-removing");
        Some(t)
    } else {
        None
    };
    Ended { failure, removal }
}

/// Take a job out of the store after its success. What comes back is what it takes to remove
/// its timer, if it has one; the store is to be kept only once that is done.
pub fn remove_job_after_success(store: &mut JobStore, job_id: &str, systemd_dir: &str) -> (r:
    Result<Vec<Step>, RunError>)
    requires
        old(store).wf(),
    ensures
        final(store).wf(),
        final(store)@ == old(store)@.remove(job_id@),
        r is Ok <==> old(store)@.contains_key(job_id@),
        r matches Ok(steps) ==> step_views(steps@) == match old(store)@[job_id@].schedule.handle() {
            Some(h) => remove_steps(h, systemd_dir@),
            None => Seq::empty(),
        },
        r matches Err(e) ==> e matches RunError::NotFound(id) && id@ == job_id@,
{
    match store.remove(job_id) {
        Some(job) => match job.schedule.handle() {
            Some(handle) => Ok(job.schedule.backend().remove(handle, systemd_dir)),
            None => {
                let steps: Vec<Step> = Vec::new();
                assert(step_views(steps@) == Seq::<StepView>::empty());
                Ok(steps)
            },
        },
        None => Err(RunError::NotFound(job_id.to_owned())),
    }
}

/// What a user who asked for a job to be run is told.
pub fn run_report(exit_code: i32) -> (r: String)
    ensures
        r@ == if exit_code == 0 {
            "Job completed successfully"@
        } else {
            "Job failed with exit code: "@ + decimal(exit_code as int)
        },
{
    if exit_code == 0 {
        "Job completed successfully".to_owned()
    } else {
        let mut r = "Job failed with exit code: ".to_owned();
        r.append(signed_text(exit_code as i64).as_str());
        r
    }
}

/// What the history says of a job that it follows: the exit code of the newest record of
/// that job, which a skipped execution does not have.
pub proof fn law_last_exit_is_of_the_newest_record(
    newer: Seq<ExecutionView>,
    e: ExecutionView,
    older: Seq<ExecutionView>,
    job_ref: Seq<char>,
)
    requires
        forall|i: int| 0 <= i < newer.len() ==> !(#[trigger] newer[i]).is_of(job_ref),
        e.is_of(job_ref),
    ensures
        first_exit(newer + seq![e] + older, job_ref) == e.exit_code,
    decreases newer.len(),
{
    let all = newer + seq![e] + older;
    if newer.len() > 0 {
        assert(all[0] == newer[0]);
        assert(all.skip(1) == newer.skip(1) + seq![e] + older);
        assert forall|i: int| 0 <= i < newer.skip(1).len() implies !(
        #[trigger] newer.skip(1)[i]).is_of(job_ref) by {
            assert(newer.skip(1)[i] == newer[i + 1]);
        }
        law_last_exit_is_of_the_newest_record(newer.skip(1), e, older, job_ref);
    } else {
        assert(all[0] == e);
    }
}

/// A job is skipped for the first cause that there is: that it is disabled, that Do Not Disturb
/// is on and it minds that, that the time lies within a range that it keeps out of, or within
/// none of those that it keeps to, and last how the job that it follows ended. The range that is
/// told is the first that the time lies within.
pub proof fn law_jobs_are_skipped_for_the_first_cause(
    job: JobView,
    state: State,
    now: Present,
    exit: Option<i32>,
)
    ensures
        ({
            let c = job.constraints;
            let minute = now.time.spec_to_minute();
            let d = decision(job, state, now, exit);
            let dnd = c.dnd_aware && (state.dnd_until matches Some(until) && (now.instant.secs
                < until.secs || (now.instant.secs == until.secs && now.instant.nanos
                < until.nanos)));
            let out = exists|i: int|
                0 <= i < c.not_during.len() && (#[trigger] c.not_during[i]).spec_contains(minute);
            let within = exists|i: int|
                0 <= i < c.only_during.len() && (#[trigger] c.only_during[i]).spec_contains(minute);
            if !job.enabled {
                d == DecisionView::Skip(SkipView::Disabled)
            } else if dnd {
                d == DecisionView::Skip(SkipView::DndActive)
            } else if out {
                exists|i: int|
                    0 <= i < c.not_during.len() && (#[trigger] c.not_during[i]).spec_contains(
                        minute,
                    ) && (forall|j: int|
                        0 <= j < i ==> !(#[trigger] c.not_during[j]).spec_contains(minute)) && d
                        == DecisionView::Skip(
                        SkipView::NotDuring {
                            start: hour_minute_text(c.not_during[i].start.secs as int),
                            end: hour_minute_text(c.not_during[i].end.secs as int),
                        },
                    )
            } else if c.only_during.len() > 0 && !within {
                d == DecisionView::Skip(SkipView::NotInOnlyDuring)
            } else {
                match (c.after, exit) {
                    (None, _) => d == DecisionView::Run,
                    (Some(dep), None) => d == DecisionView::Skip(
                        SkipView::AfterMissingHistory(dep),
                    ),
                    (Some(dep), Some(code)) => if code == 0 {
                        d == DecisionView::Run
                    } else {
                        d == DecisionView::Skip(SkipView::AfterFailed { dep, exit: code })
                    },
                }
            }
        }),
{
    let c = job.constraints;
    let minute = now.time.spec_to_minute();
    lemma_first_range(c.not_during, minute);
    if let Some(i) = first_range(c.not_during, minute) {
        assert(c.not_during[i].spec_contains(minute));
    }
}

/// What is recorded of a skipped execution.
pub proof fn law_reasons_are_recorded(start: Seq<char>, end: Seq<char>, dep: Seq<char>, exit: i32)
    ensures
        SkipView::Disabled.history_reason() == "disabled"@,
        SkipView::DndActive.history_reason() == "dnd"@,
        (SkipView::NotDuring { start, end }).history_reason() == "not_during "@ + start + "-"@ + end,
        SkipView::NotInOnlyDuring.history_reason() == "not in only_during range"@,
        SkipView::AfterMissingHistory(dep).history_reason() == "after: "@ + dep
            + " has no history"@,
        (SkipView::AfterFailed { dep, exit }).history_reason() == "after: "@ + dep + " exit "@
            + decimal(exit as int),
{
}

/// A job runs where that is decided, and is skipped otherwise, for the reason that is recorded
/// and told with its ID and its name.
pub proof fn law_decisions_are_carried_out(job: JobView, d: DecisionView, skipped: Option<Skipped>)
    requires
        carried_out(job, d, skipped),
    ensures
        d == DecisionView::Run <==> skipped is None,
        skipped matches Some(k) ==> (d matches DecisionView::Skip(s) && k.reason@
            == s.history_reason()),
        skipped matches Some(k) ==> k.message@ == "[usched] skipping job '"@ + job.id + "' ("@
            + job.name + "): "@ + k.reason@,
{
}

/// A job of which the history has no record has no exit code.
pub proof fn law_no_record_no_exit(executions: Seq<ExecutionView>, job_ref: Seq<char>)
    requires
        forall|i: int|
            0 <= i < executions.len() ==> (#[trigger] executions[i]).job_id != job_ref
                && executions[i].job_name != job_ref,
    ensures
        first_exit(executions, job_ref) is None,
    decreases executions.len(),
{
    if executions.len() > 0 {
        assert(executions[0].job_id != job_ref);
        let rest = executions.skip(1);
        assert forall|i: int| 0 <= i < rest.len() implies (#[trigger] rest[i]).job_id != job_ref
            && rest[i].job_name != job_ref by {
            assert(rest[i] == executions[i + 1]);
        }
        law_no_record_no_exit(rest, job_ref);
    }
}

/// A record is of the job with its ID, and of the job with its name.
pub proof fn law_records_go_by_id_or_name(e: ExecutionView, job_ref: Seq<char>)
    ensures
        e.is_of(job_ref) <==> e.job_id == job_ref || e.job_name == job_ref,
        e.is_of(job_ref) ==> first_exit(seq![e], job_ref) == e.exit_code,
{
    assert(seq![e][0] == e);
}

/// The present at an instant is that instant, and the time that local clocks show then; there is
/// one wherever the instant is a day or more away from the first and the last that can be named.
pub proof fn law_present_is_what_clocks_show(r: Option<Present>, instant: Timestamp)
    requires
        instant.wf(),
        Present::shown_at(r, instant),
    ensures
        r is Some <==> MIN_SECS + 86_400 <= instant.secs <= MAX_SECS - 86_400,
        r matches Some(p) ==> p.instant == instant && exists|d: LocalDateTime| #[trigger]
            is_shown_at(d, instant) && d.time == p.time,
{
}

/// What the history says of the job that another follows decides: success lets it run, and
/// anything else is told; a history that cannot be asked is an error.
pub proof fn law_history_decides(
    dep: Seq<char>,
    reply: Result<Option<i32>, HistoryError>,
    r: Result<Decision, HistoryError>,
)
    requires
        follows(dep, reply, r),
    ensures
        match reply {
            Ok(Some(code)) => if code == 0 {
                r matches Ok(d) && d@ == DecisionView::Run
            } else {
                r matches Ok(d) && d@ == DecisionView::Skip(
                    SkipView::AfterFailed { dep, exit: code },
                )
            },
            Ok(None) => r matches Ok(d) && d@ == DecisionView::Skip(
                SkipView::AfterMissingHistory(dep),
            ),
            Err(e) => r == Err::<Decision, HistoryError>(e),
        },
{
}

/// What a user is told of a job that could not be run.
pub proof fn law_run_errors_are_told(id: String, e: HistoryError)
    ensures
        RunError::NotFound(id).spec_message() == "Job '"@ + id@ + "' not found"@,
        RunError::EmptyCommand(id).spec_message() == "Job '"@ + id@ + "' has empty command"@,
        RunError::History(e).spec_message() == e.message@,
{
}

/// A job is to be removed after its command where it asks for that and the command succeeded,
/// and nowhere else; a command that failed is told with its exit code.
pub proof fn law_success_alone_removes(job: &Job, exit_code: i32, r: Ended)
    requires
        call_ensures(end_run, (job, exit_code), r),
    ensures
        r.removal is Some <==> job.constraints.remove_on_success && exit_code == 0,
        r.failure is Some <==> exit_code != 0,
        r.failure matches Some(t) ==> t@ == "[usched] job '"@ + job.id@ + "' ("@ + job.name@
            + ") exited with code "@ + decimal(exit_code as int),
        r.removal matches Some(t) ==> t@ == "[usched] job '"@ + job.id@
            + "' succeeded; auto-removing"@,
{
}

/// A command ends with the exit code that it had, or with -1 where it had none; the user is told
/// of success where that is zero, and else of the code.
pub proof fn law_exit_codes_are_kept(code: Option<i32>, c: i32, r: i32, told: String)
    requires
        call_ensures(exit_code_of, (code,), r),
        call_ensures(run_report, (c,), told),
    ensures
        code matches Some(n) ==> r == n,
        code is None ==> r == -1,
        c == 0 ==> told@ == "Job completed successfully"@,
        c != 0 ==> told@ == "Job failed with exit code: "@ + decimal(c as int),
{
}

/// A command is run as it stands: its first word is the program, and the others are its
/// arguments in order. An empty one cannot be run.
pub proof fn law_command_is_run_as_it_stands(
    job: &Job,
    r: Result<(&String, Vec<&String>), RunError>,
    i: int,
)
    requires
        call_ensures(command_of, (job,), r),
    ensures
        r is Ok <==> job.command@.len() > 0,
        r matches Ok((program, args)) ==> program@ == job.command@[0]@ && args@.len()
            == job.command@.len() - 1,
        r matches Ok((_, args)) ==> (0 <= i < args@.len() ==> args@[i]@ == job.command@[i + 1]@),
        r matches Err(e) ==> (e matches RunError::EmptyCommand(id) && id@ == job.id@),
{
    if let Ok((_, args)) = r {
        let texts = args@.map_values(|a: &String| a@);
        assert(texts == job@.command.skip(1));
        assert(texts.len() == args@.len());
        if 0 <= i < args@.len() {
            assert(texts[i] == args@[i]@);
            assert(job@.command.skip(1)[i] == job.command@[i + 1]@);
        }
    }
}

} // verus!

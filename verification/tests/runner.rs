use chrono::{Local, TimeZone, Utc};
use usched::history::Execution;
use usched::job::{Constraints, Job, Schedule, TimeRange};
use usched::moment::{TimeOfDay, Timestamp};
use usched::runner::{
    begin_run, command_of, decide_late, end_run, evaluate, exit_code_of, remove_job_after_success,
    run_report, Decision, HistoryDb, HistoryError, HistoryLookup, Present, RunError, SkipReason,
};
use usched::store::{JobStore, State};

struct StubHistory {
    last: Option<i32>,
}

impl HistoryLookup for StubHistory {
    fn last_exit_for(&self, _: &str) -> Result<Option<i32>, HistoryError> {
        Ok(self.last)
    }
}

struct BrokenHistory;

impl HistoryLookup for BrokenHistory {
    fn last_exit_for(&self, job_ref: &str) -> Result<Option<i32>, HistoryError> {
        Err(HistoryError {
            message: format!("no database for {}", job_ref),
        })
    }
}

fn at(h: u32, m: u32) -> TimeOfDay {
    TimeOfDay::from_hms(h, m, 0).unwrap()
}

fn instant(t: chrono::DateTime<Utc>) -> Timestamp {
    Timestamp {
        secs: t.timestamp(),
        nanos: t.timestamp_subsec_nanos(),
    }
}

fn now_at(h: u32, m: u32) -> Present {
    let local = Local
        .from_local_datetime(
            &chrono::NaiveDate::from_ymd_opt(2026, 1, 15)
                .unwrap()
                .and_hms_opt(h, m, 0)
                .unwrap(),
        )
        .single()
        .unwrap();
    Present {
        instant: instant(local.with_timezone(&Utc)),
        time: at(h, m),
    }
}

fn job_with(constraints: Constraints, enabled: bool) -> Job {
    Job {
        id: "test-id".to_string(),
        name: "test".to_string(),
        schedule: Schedule::Cron {
            expr: "0 * * * *".to_string(),
            unit: None,
        },
        command: vec!["true".to_string()],
        constraints,
        enabled,
        created_at: instant(Utc::now()),
        created_by: "test".to_string(),
    }
}

#[test]
fn evaluate_disabled_skips() {
    let job = job_with(Constraints::default(), false);
    let state = State::default();
    let h = StubHistory { last: None };
    let d = evaluate(&job, &state, &h, now_at(12, 0)).unwrap();
    assert_eq!(d, Decision::Skip(SkipReason::Disabled));
}

#[test]
fn evaluate_dnd_active_skips_when_aware() {
    let mut job = job_with(Constraints::default(), true);
    job.constraints.dnd_aware = true;
    let mut state = State::default();
    state.set_dnd(instant(Utc::now() + chrono::Duration::hours(1)));
    let h = StubHistory { last: None };
    let d = evaluate(&job, &state, &h, now_at(12, 0)).unwrap();
    assert_eq!(d, Decision::Skip(SkipReason::DndActive));
}

#[test]
fn evaluate_dnd_ignored_when_not_aware() {
    let job = job_with(Constraints::default(), true);
    let mut state = State::default();
    state.set_dnd(instant(Utc::now() + chrono::Duration::hours(1)));
    let h = StubHistory { last: None };
    let d = evaluate(&job, &state, &h, now_at(12, 0)).unwrap();
    assert_eq!(d, Decision::Run);
}

#[test]
fn evaluate_not_during_skips_inside_window() {
    let mut c = Constraints::default();
    c.not_during.push(TimeRange {
        start: at(22, 0),
        end: at(8, 0),
    });
    let job = job_with(c, true);
    let state = State::default();
    let h = StubHistory { last: None };
    let d = evaluate(&job, &state, &h, now_at(23, 30)).unwrap();
    assert!(matches!(d, Decision::Skip(SkipReason::NotDuring { .. })));
}

#[test]
fn evaluate_not_during_passes_outside_window() {
    let mut c = Constraints::default();
    c.not_during.push(TimeRange {
        start: at(22, 0),
        end: at(8, 0),
    });
    let job = job_with(c, true);
    let state = State::default();
    let h = StubHistory { last: None };
    let d = evaluate(&job, &state, &h, now_at(12, 0)).unwrap();
    assert_eq!(d, Decision::Run);
}

#[test]
fn evaluate_only_during_skips_outside() {
    let mut c = Constraints::default();
    c.only_during.push(TimeRange {
        start: at(9, 0),
        end: at(17, 0),
    });
    let job = job_with(c, true);
    let state = State::default();
    let h = StubHistory { last: None };
    let d = evaluate(&job, &state, &h, now_at(20, 0)).unwrap();
    assert_eq!(d, Decision::Skip(SkipReason::NotInOnlyDuring));
}

#[test]
fn evaluate_only_during_passes_inside() {
    let mut c = Constraints::default();
    c.only_during.push(TimeRange {
        start: at(9, 0),
        end: at(17, 0),
    });
    let job = job_with(c, true);
    let state = State::default();
    let h = StubHistory { last: None };
    let d = evaluate(&job, &state, &h, now_at(12, 0)).unwrap();
    assert_eq!(d, Decision::Run);
}

#[test]
fn evaluate_after_no_history_skips() {
    let mut c = Constraints::default();
    c.after = Some("parent".to_string());
    let job = job_with(c, true);
    let state = State::default();
    let h = StubHistory { last: None };
    let d = evaluate(&job, &state, &h, now_at(12, 0)).unwrap();
    assert_eq!(
        d,
        Decision::Skip(SkipReason::AfterMissingHistory("parent".to_string()))
    );
}

#[test]
fn evaluate_after_failed_skips() {
    let mut c = Constraints::default();
    c.after = Some("parent".to_string());
    let job = job_with(c, true);
    let state = State::default();
    let h = StubHistory { last: Some(1) };
    let d = evaluate(&job, &state, &h, now_at(12, 0)).unwrap();
    assert_eq!(
        d,
        Decision::Skip(SkipReason::AfterFailed {
            dep: "parent".to_string(),
            exit: 1
        })
    );
}

#[test]
fn evaluate_after_succeeded_runs() {
    let mut c = Constraints::default();
    c.after = Some("parent".to_string());
    let job = job_with(c, true);
    let state = State::default();
    let h = StubHistory { last: Some(0) };
    let d = evaluate(&job, &state, &h, now_at(12, 0)).unwrap();
    assert_eq!(d, Decision::Run);
}

#[test]
fn evaluate_clean_job_runs() {
    let job = job_with(Constraints::default(), true);
    let state = State::default();
    let h = StubHistory { last: None };
    let d = evaluate(&job, &state, &h, now_at(12, 0)).unwrap();
    assert_eq!(d, Decision::Run);
}

#[test]
fn history_is_asked_last_and_its_failure_is_passed_on() {
    let mut c = Constraints::default();
    c.after = Some("parent".to_string());
    let job = job_with(c, true);
    let state = State::default();
    let e = evaluate(&job, &state, &BrokenHistory, now_at(12, 0)).unwrap_err();
    assert_eq!(e.message, "no database for parent");
    let mut off = job_with(Constraints::default(), false);
    off.constraints.after = Some("parent".to_string());
    let d = evaluate(&off, &state, &BrokenHistory, now_at(12, 0)).unwrap();
    assert_eq!(d, Decision::Skip(SkipReason::Disabled));
}

#[test]
fn ranges_are_judged_by_the_minute_and_told_in_full() {
    let mut c = Constraints::default();
    c.not_during.push(TimeRange {
        start: at(9, 5),
        end: at(9, 6),
    });
    let job = job_with(c, true);
    let mut now = now_at(9, 5);
    now.time = TimeOfDay::from_hms(9, 5, 59).unwrap();
    let d = evaluate(&job, &State::default(), &StubHistory { last: None }, now).unwrap();
    assert_eq!(
        d,
        Decision::Skip(SkipReason::NotDuring {
            start: "09:05".to_string(),
            end: "09:06".to_string()
        })
    );
    now.time = TimeOfDay::from_hms(9, 6, 0).unwrap();
    let d = evaluate(&job, &State::default(), &StubHistory { last: None }, now).unwrap();
    assert_eq!(d, Decision::Run);
}

#[test]
fn reasons_are_recorded_in_words() {
    assert_eq!(SkipReason::Disabled.as_history_reason(), "disabled");
    assert_eq!(SkipReason::DndActive.as_history_reason(), "dnd");
    assert_eq!(
        SkipReason::NotDuring {
            start: "22:00".to_string(),
            end: "08:00".to_string()
        }
        .as_history_reason(),
        "not_during 22:00-08:00"
    );
    assert_eq!(
        SkipReason::NotInOnlyDuring.as_history_reason(),
        "not in only_during range"
    );
    assert_eq!(
        SkipReason::AfterMissingHistory("p".to_string()).as_history_reason(),
        "after: p has no history"
    );
    assert_eq!(
        SkipReason::AfterFailed {
            dep: "p".to_string(),
            exit: -1
        }
        .as_history_reason(),
        "after: p exit -1"
    );
}

fn execution(id: &str, name: &str, exit_code: Option<i32>) -> Execution {
    Execution {
        job_id: id.to_string(),
        job_name: name.to_string(),
        started_at: Timestamp { secs: 0, nanos: 0 },
        finished_at: None,
        exit_code,
        duration_ms: None,
        skipped_reason: None,
    }
}

#[test]
fn newest_record_of_a_job_tells_how_it_ended() {
    let db = HistoryDb {
        executions: vec![
            execution("b-1", "b", Some(3)),
            execution("a-1", "a", None),
            execution("a-1", "a", Some(0)),
        ],
    };
    assert_eq!(db.last_exit_for("a").unwrap(), None);
    assert_eq!(db.last_exit_for("a-1").unwrap(), None);
    assert_eq!(db.last_exit_for("b").unwrap(), Some(3));
    assert_eq!(db.last_exit_for("c").unwrap(), None);
}

#[test]
fn present_is_what_chrono_shows() {
    let before = Utc::now().timestamp();
    let now = Present::now().unwrap();
    let after = Utc::now().timestamp();
    assert!(before <= now.instant.secs && now.instant.secs <= after);
    let local = chrono::DateTime::from_timestamp(now.instant.secs, now.instant.nanos)
        .unwrap()
        .with_timezone(&Local);
    let time = chrono::Timelike::num_seconds_from_midnight(&local.time());
    assert_eq!(now.time.secs, time);
}

#[test]
fn present_is_owed_for_every_instant_but_the_outermost() {
    let instant = Timestamp {
        secs: 4_085_164_800,
        nanos: 7,
    };
    let shown = Present::at(instant).unwrap();
    assert_eq!(shown.instant, instant);
    let local = chrono::DateTime::from_timestamp(instant.secs, instant.nanos)
        .unwrap()
        .with_timezone(&Local);
    assert_eq!(
        shown.time.secs,
        chrono::Timelike::num_seconds_from_midnight(&local.time())
    );
    assert_eq!(shown.time.frac, 7);
    let at = |secs: i64| Present::at(Timestamp { secs, nanos: 0 });
    assert!(at(usched::moment::MAX_SECS - usched::moment::DAY_SECS).is_some());
    assert!(at(usched::moment::MAX_SECS - usched::moment::DAY_SECS + 1).is_none());
    assert!(at(usched::moment::MIN_SECS + usched::moment::DAY_SECS).is_some());
    assert!(at(usched::moment::MIN_SECS).is_none());
}

fn store_with(job: Job) -> JobStore {
    let mut store = JobStore::default();
    store.add(job);
    store
}

#[test]
fn runjob_skips_disabled_job() {
    let store = store_with(job_with(Constraints::default(), false));
    let h = StubHistory { last: None };
    let (job, skipped) = begin_run(
        &store,
        &State::default(),
        &h,
        "test-id",
        false,
        now_at(12, 0),
    )
    .unwrap();
    assert_eq!(job.id, "test-id");
    let skipped = skipped.unwrap();
    assert_eq!(skipped.reason, "disabled");
    assert_eq!(
        skipped.message,
        "[usched] skipping job 'test-id' (test): disabled"
    );
}

#[test]
fn run_with_force_bypasses_disabled() {
    let store = store_with(job_with(Constraints::default(), false));
    let (_, skipped) = begin_run(
        &store,
        &State::default(),
        &BrokenHistory,
        "test-id",
        true,
        now_at(12, 0),
    )
    .unwrap();
    assert!(skipped.is_none());
}

#[test]
fn unknown_jobs_are_not_run() {
    let store = JobStore::default();
    let h = StubHistory { last: None };
    let e = begin_run(&store, &State::default(), &h, "x", true, now_at(12, 0)).unwrap_err();
    assert!(matches!(e, RunError::NotFound(_)));
    assert_eq!(e.message(), "Job 'x' not found");
}

#[test]
fn history_failures_stop_a_run() {
    let mut c = Constraints::default();
    c.after = Some("p".to_string());
    let store = store_with(job_with(c, true));
    let e = begin_run(
        &store,
        &State::default(),
        &BrokenHistory,
        "test-id",
        false,
        now_at(12, 0),
    )
    .unwrap_err();
    assert_eq!(e.message(), "no database for p");
}

#[test]
fn commands_are_taken_apart() {
    let mut job = job_with(Constraints::default(), true);
    job.command = vec!["echo".to_string(), "a".to_string(), "b c".to_string()];
    let (program, args) = command_of(&job).unwrap();
    assert_eq!(program, "echo");
    assert_eq!(args, ["a", "b c"]);
    job.command = vec![];
    let e = command_of(&job).unwrap_err();
    assert_eq!(e.message(), "Job 'test-id' has empty command");
    assert_eq!(exit_code_of(None), -1);
    assert_eq!(exit_code_of(Some(7)), 7);
}

#[test]
fn ends_of_runs() {
    let mut job = job_with(Constraints::default(), true);
    let e = end_run(&job, 3);
    assert_eq!(
        e.failure.unwrap(),
        "[usched] job 'test-id' (test) exited with code 3"
    );
    assert!(e.removal.is_none());
    assert!(end_run(&job, 0).removal.is_none());
    job.constraints.remove_on_success = true;
    let e = end_run(&job, 0);
    assert!(e.failure.is_none());
    assert_eq!(
        e.removal.unwrap(),
        "[usched] job 'test-id' succeeded; auto-removing"
    );
    assert!(end_run(&job, -1).removal.is_none());
    assert_eq!(run_report(0), "Job completed successfully");
    assert_eq!(run_report(-1), "Job failed with exit code: -1");
}

#[test]
fn jobs_are_removed_after_success() {
    let mut job = job_with(Constraints::default(), true);
    job.schedule.set_handle("usched-test-id".to_string());
    let mut store = store_with(job);
    let steps = remove_job_after_success(&mut store, "test-id", "/d").unwrap();
    assert_eq!(steps.len(), 6);
    assert!(store.get("test-id").is_none());
    assert!(remove_job_after_success(&mut store, "test-id", "/d").is_err());
    let mut store = store_with(job_with(Constraints::default(), true));
    assert!(remove_job_after_success(&mut store, "test-id", "/d")
        .unwrap()
        .is_empty());
}

#[test]
fn dependencies_decide_late() {
    assert_eq!(decide_late("p", Some(0)), Decision::Run);
    assert_eq!(
        decide_late("p", None),
        Decision::Skip(SkipReason::AfterMissingHistory("p".to_string()))
    );
}

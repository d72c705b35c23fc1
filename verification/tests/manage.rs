use usched::cron_convert::CronError;
use usched::job::{Constraints, Job, Schedule};
use usched::listing::cmd_list;
use usched::manage::{
    added_text, build_job, cmd_add, cmd_disable, cmd_edit, cmd_enable, cmd_remove, edit_report,
    job_name, keep_added, AddRequest, Edit, ManageError,
};
use usched::moment::Timestamp;
use usched::store::JobStore;
use usched::systemd::{Step, UnitEnv};

fn request(name: &str) -> AddRequest {
    AddRequest {
        name: Some(name.to_string()),
        cron: None,
        once: None,
        not_during: None,
        dnd_aware: false,
        remove_on_success: false,
        after: None,
        command: vec!["echo".to_string(), "hi".to_string()],
    }
}

fn cron_request(name: &str, expr: &str) -> AddRequest {
    let mut r = request(name);
    r.cron = Some(expr.to_string());
    r
}

fn env() -> UnitEnv {
    UnitEnv {
        systemd_dir: "/u".to_string(),
        usched_path: "usched".to_string(),
        path_env: "/bin".to_string(),
    }
}

/// Adds a job as the program does, with all steps taken.
fn add(store: &mut JobStore, r: &AddRequest) -> String {
    let job = cmd_add(store, r).unwrap();
    let plan = job.schedule.backend().schedule(&job, &env()).unwrap();
    let id = job.id.clone();
    keep_added(store, job, plan.unit);
    id
}

#[test]
fn add_cron_writes_jobs_and_unit_files() {
    let mut store = JobStore::default();
    let job = cmd_add(&store, &cron_request("morning", "0 9 * * 1-5")).unwrap();
    assert!(job.id.starts_with("morning-"));
    assert_eq!(job.name, "morning");
    assert_eq!(job.command, ["echo", "hi"]);
    assert!(job.enabled);
    assert_eq!(job.created_by, "user");
    let plan = job.schedule.backend().schedule(&job, &env()).unwrap();
    let mut files = vec![];
    let mut calls = vec![];
    for step in &plan.steps {
        match step {
            Step::WriteFile { path, .. } => files.push(path.clone()),
            Step::Systemctl { args, .. } => calls.push(args.join(" ")),
            _ => {}
        }
    }
    assert!(files[0].starts_with("/u/usched-morning-") && files[0].ends_with(".timer"));
    assert!(files[1].starts_with("/u/usched-morning-") && files[1].ends_with(".service"));
    assert!(calls[0].contains("daemon-reload"));
    assert!(calls[1].contains("enable") && calls[1].contains("--now"));
    let text = added_text(&job, &plan.unit);
    assert_eq!(
        text,
        format!(
            "Created recurring job '{}' with systemd timer 'usched-{}'",
            job.id, job.id
        )
    );
    let id = job.id.clone();
    keep_added(&mut store, job, plan.unit);
    let kept = store.get(&id).unwrap();
    assert_eq!(kept.schedule.handle().unwrap(), format!("usched-{}", id));
}

#[test]
fn add_then_list_then_remove_roundtrip() {
    let mut store = JobStore::default();
    let id = add(&mut store, &cron_request("rt", "0 9 * * *"));
    let lines = cmd_list(&store.list());
    assert!(lines[0].contains("rt"));
    assert!(lines[0].contains("cron: 0 9 * * *"));
    assert!(lines[0].starts_with("rt-"));
    let removed = cmd_remove(&mut store, &id, "/u").unwrap();
    assert_eq!(removed.message, format!("Removed job '{}'", id));
    assert_eq!(
        removed.timer_message.unwrap(),
        format!("Removed systemd timer 'usched-{}'", id)
    );
    let gone: Vec<String> = removed
        .steps
        .iter()
        .filter_map(|s| match s {
            Step::RemoveFile(p) => Some(p.clone()),
            _ => None,
        })
        .collect();
    assert_eq!(
        gone,
        [
            format!("/u/usched-{}.timer", id),
            format!("/u/usched-{}.service", id)
        ]
    );
    assert!(store.get(&id).is_none());
}

#[test]
fn add_once_writes_systemd_timer() {
    let store = JobStore::default();
    let mut r = request("once-job");
    r.once = Some("2099-06-15 09:00".to_string());
    let job = cmd_add(&store, &r).unwrap();
    let plan = job.schedule.backend().schedule(&job, &env()).unwrap();
    let text = added_text(&job, &plan.unit);
    assert!(text.contains("systemd timer"));
    assert!(text.contains("2099-06-15 09:00:00"));
    match &plan.steps[1] {
        Step::WriteFile { path, content } => {
            assert!(path.starts_with("/u/usched-once-job-") && path.ends_with(".timer"));
            assert!(content.contains("OnCalendar=2099-06-15 09:00:00"));
            assert!(content.contains("Persistent=true"));
        }
        _ => panic!("wrong step"),
    }
}

#[test]
fn add_requires_cron_or_once() {
    let e = cmd_add(&JobStore::default(), &request("x")).unwrap_err();
    assert!(matches!(e, ManageError::NoSchedule));
    assert!(e.message().contains("--cron") && e.message().contains("--once"));
}

#[test]
fn add_rejects_bad_cron() {
    let job = cmd_add(&JobStore::default(), &cron_request("x", "not a cron")).unwrap();
    let e = job.schedule.backend().schedule(&job, &env()).unwrap_err();
    assert_eq!(e, CronError::FieldCount(3));
}

#[test]
fn add_with_after_dependency_validates() {
    let mut store = JobStore::default();
    let mut child = cron_request("child", "0 9 * * *");
    child.after = Some("ghost".to_string());
    let e = cmd_add(&store, &child).unwrap_err();
    assert_eq!(
        e.message(),
        "Dependency job 'ghost' not found. Use a valid job ID or name."
    );
    let parent = add(&mut store, &cron_request("parent", "0 8 * * *"));
    child.after = Some("parent".to_string());
    assert_eq!(
        cmd_add(&store, &child).unwrap().constraints.after.as_deref(),
        Some("parent")
    );
    child.after = Some(parent);
    assert!(cmd_add(&store, &child).is_ok());
}

#[test]
fn add_refuses_times_that_cannot_be_read() {
    let store = JobStore::default();
    let mut r = request("x");
    r.once = Some("whenever".to_string());
    assert!(matches!(
        cmd_add(&store, &r).unwrap_err(),
        ManageError::Time(_)
    ));
    let mut r = cron_request("x", "0 9 * * *");
    r.not_during = Some("9-17".to_string());
    assert!(matches!(
        cmd_add(&store, &r).unwrap_err(),
        ManageError::Time(_)
    ));
    r.not_during = Some("22:00-08:00".to_string());
    let job = cmd_add(&store, &r).unwrap();
    assert_eq!(job.constraints.not_during.len(), 1);
    assert_eq!(job.constraints.not_during[0].start.secs, 79_200);
}

#[test]
fn names_have_defaults() {
    let mut r = request("x");
    assert_eq!(job_name(&r), "x");
    r.name = None;
    assert_eq!(job_name(&r), "echo");
    r.command = vec![];
    assert_eq!(job_name(&r), "job");
    let at = Timestamp { secs: 7, nanos: 8 };
    r.dnd_aware = true;
    let job = build_job(
        &r,
        "i".to_string(),
        Schedule::Once {
            at,
            unit: None,
            at_job: None,
        },
        None,
        at,
    );
    assert_eq!(job.id, "i");
    assert_eq!(job.created_at, at);
    assert!(job.constraints.dnd_aware && !job.constraints.remove_on_success);
}

#[test]
fn remove_unknown_job_errors() {
    let e = cmd_remove(&mut JobStore::default(), "does-not-exist", "/u").unwrap_err();
    assert_eq!(e.message(), "Job 'does-not-exist' not found");
}

#[test]
fn remove_once_job_tears_down_systemd_timer() {
    let mut store = JobStore::default();
    let mut r = request("ghost");
    r.once = Some("2099-06-15 09:00".to_string());
    let id = add(&mut store, &r);
    let removed = cmd_remove(&mut store, &id, "/u").unwrap();
    assert!(removed
        .timer_message
        .unwrap()
        .contains("Removed systemd timer"));
    assert!(removed.message.contains("Removed job"));
    assert_eq!(removed.steps.len(), 6);
    assert!(store.list().is_empty());
}

#[test]
fn jobs_without_a_timer_are_removed_without_steps() {
    let mut store = JobStore::default();
    let job = cmd_add(&store, &cron_request("x", "0 9 * * *")).unwrap();
    let id = job.id.clone();
    store.add(job);
    let removed = cmd_remove(&mut store, &id, "/u").unwrap();
    assert!(removed.steps.is_empty() && removed.timer_message.is_none());
}

#[test]
fn disable_then_enable_toggles_state() {
    let mut store = JobStore::default();
    let id = add(&mut store, &cron_request("tog", "0 9 * * *"));
    let t = cmd_disable(&mut store, &id).unwrap();
    assert_eq!(t.message, format!("Disabled job '{}'", id));
    assert!(t.changed);
    assert_eq!(t.steps.len(), 2);
    assert!(cmd_list(&store.list())[0].contains("disabled"));
    let t = cmd_disable(&mut store, &id).unwrap();
    assert_eq!(t.message, format!("Job '{}' is already disabled", id));
    assert!(!t.changed && t.steps.is_empty());
    let t = cmd_enable(&mut store, &id).unwrap();
    assert_eq!(t.message, format!("Enabled job '{}'", id));
    assert_eq!(t.steps.len(), 1);
    assert!(store.get(&id).unwrap().enabled);
    let t = cmd_enable(&mut store, &id).unwrap();
    assert_eq!(t.message, format!("Job '{}' is already enabled", id));
    assert!(cmd_enable(&mut store, "x").is_err());
    assert!(cmd_disable(&mut store, "x").is_err());
}

fn edit() -> Edit {
    Edit {
        cron: None,
        name: None,
        not_during: None,
        clear_not_during: false,
        dnd_aware: None,
    }
}

#[test]
fn edits_change_what_they_name() {
    let mut store = JobStore::default();
    let id = add(&mut store, &cron_request("e", "0 9 * * *"));
    let mut e = edit();
    let done = cmd_edit(&mut store, &id, &e, "/u").unwrap();
    assert_eq!(
        edit_report(&id, &done.changes),
        [format!("No changes specified for job '{}'", id)]
    );
    e.name = Some("f".to_string());
    e.dnd_aware = Some(true);
    e.not_during = Some("22:00-08:00".to_string());
    e.cron = Some("30 8 * * *".to_string());
    let done = cmd_edit(&mut store, &id, &e, "/u").unwrap();
    assert_eq!(
        edit_report(&id, &done.changes),
        [
            format!("Updated job '{}':", id),
            "  name → f".to_string(),
            "  dnd_aware → true".to_string(),
            "  not_during → 22:00-08:00".to_string(),
            "  cron → 30 8 * * *".to_string(),
        ]
    );
    assert_eq!(done.removal.len(), 6);
    assert!(done.reschedule);
    let job = store.get(&id).unwrap();
    let plan = job.schedule.backend().schedule(job, &env()).unwrap();
    assert_eq!(plan.unit, format!("usched-{}", id));
    assert_eq!(job.name, "f");
    assert_eq!(job.id, id);
    assert!(job.constraints.dnd_aware);
    assert_eq!(job.constraints.not_during.len(), 1);
    match &job.schedule {
        Schedule::Cron { expr, unit } => {
            assert_eq!(expr, "30 8 * * *");
            assert_eq!(unit.as_deref().unwrap(), format!("usched-{}", id));
        }
        _ => panic!("wrong variant"),
    }
    let mut e = edit();
    e.clear_not_during = true;
    e.not_during = Some("garbage".to_string());
    e.dnd_aware = Some(false);
    let done = cmd_edit(&mut store, &id, &e, "/u").unwrap();
    assert_eq!(
        done.changes,
        ["dnd_aware → false", "not_during → cleared"]
    );
    assert!(done.removal.is_empty() && !done.reschedule);
    assert!(store.get(&id).unwrap().constraints.not_during.is_empty());
}

#[test]
fn edits_are_refused() {
    let mut store = JobStore::default();
    assert!(matches!(
        cmd_edit(&mut store, "x", &edit(), "/u").unwrap_err(),
        ManageError::NotFound(_)
    ));
    let mut r = request("o");
    r.once = Some("2099-06-15 09:00".to_string());
    let id = add(&mut store, &r);
    let mut e = edit();
    e.name = Some("n".to_string());
    e.cron = Some("0 9 * * *".to_string());
    let err = cmd_edit(&mut store, &id, &e, "/u").unwrap_err();
    assert_eq!(
        err.message(),
        "Cannot change a one-off job to cron. Remove and re-add instead."
    );
    assert_eq!(store.get(&id).unwrap().name, "o");
    e.not_during = Some("x".to_string());
    assert!(matches!(
        cmd_edit(&mut store, &id, &e, "/u").unwrap_err(),
        ManageError::Time(_)
    ));
}

#[test]
fn edits_with_a_bad_expression_still_remove_the_timer() {
    let mut store = JobStore::default();
    let id = add(&mut store, &cron_request("e", "0 9 * * *"));
    let mut e = edit();
    e.cron = Some("0 9".to_string());
    let done = cmd_edit(&mut store, &id, &e, "/u").unwrap();
    assert_eq!(done.removal.len(), 6);
    let job = store.get(&id).unwrap();
    assert_eq!(
        job.schedule.backend().schedule(job, &env()).unwrap_err(),
        CronError::FieldCount(2)
    );
}

#[test]
fn list_when_empty() {
    let jobs: Vec<&Job> = vec![];
    assert_eq!(cmd_list(&jobs), ["No scheduled jobs"]);
}

#[test]
fn listing_tells_flags_and_commands() {
    let mut c = Constraints::default();
    c.dnd_aware = true;
    c.remove_on_success = true;
    c.after = Some("p".to_string());
    let at = Timestamp {
        secs: 4_085_164_800,
        nanos: 0,
    };
    let job = Job {
        id: "o-1".to_string(),
        name: "o".to_string(),
        schedule: Schedule::Once {
            at,
            unit: None,
            at_job: None,
        },
        command: vec!["echo".to_string(), "a".to_string()],
        constraints: c,
        enabled: false,
        created_at: at,
        created_by: "user".to_string(),
    };
    let local = chrono::DateTime::from_timestamp(at.secs, 0)
        .unwrap()
        .with_timezone(&chrono::Local);
    assert_eq!(
        cmd_list(&vec![&job]),
        [
            format!(
                "o-1 (o) - once: {} [disabled] [dnd-aware, auto-remove, after:p]",
                local.format("%Y-%m-%d %H:%M")
            ),
            "  command: echo a".to_string(),
        ]
    );
}

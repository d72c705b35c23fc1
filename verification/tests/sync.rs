use usched::check::{cmd_check, known_units, Finding};
use usched::job::{Constraints, Job, Schedule};
use usched::moment::Timestamp;
use usched::store::JobStore;
use usched::sync::{needs_rewrite, TimerSync, SyncAction, UnitFound};
use usched::systemd::{TimerReport, UnitEnv};

const NOW: Timestamp = Timestamp {
    secs: 1_800_000_000,
    nanos: 0,
};

fn env() -> UnitEnv {
    UnitEnv {
        systemd_dir: "/u".to_string(),
        usched_path: "usched".to_string(),
        path_env: "/bin".to_string(),
    }
}

fn job(id: &str, schedule: Schedule) -> Job {
    Job {
        id: id.to_string(),
        name: id.to_string(),
        schedule,
        command: vec!["echo".to_string()],
        constraints: Constraints::default(),
        enabled: true,
        created_at: NOW,
        created_by: "user".to_string(),
    }
}

fn cron(unit: Option<&str>) -> Schedule {
    Schedule::Cron {
        expr: "0 9 * * *".to_string(),
        unit: unit.map(|s| s.to_string()),
    }
}

fn fired() -> Schedule {
    Schedule::Once {
        at: NOW,
        unit: Some("usched-f".to_string()),
        at_job: None,
    }
}

fn report(healthy: bool) -> TimerReport {
    TimerReport {
        timer_exists: healthy,
        service_exists: healthy,
        is_enabled: Some("enabled".to_string()),
    }
}

fn found(healthy: bool, service: &str) -> UnitFound {
    UnitFound {
        report: report(healthy),
        service: Some(service.to_string()),
    }
}

#[test]
fn reasons_for_a_new_timer() {
    let new = "usched __run-job x";
    assert_eq!(
        needs_rewrite(&job("a", cron(None)), &found(true, new)),
        Some("no unit recorded")
    );
    assert_eq!(
        needs_rewrite(&job("a", cron(Some(""))), &found(true, new)),
        Some("no unit recorded")
    );
    assert_eq!(
        needs_rewrite(&job("a", cron(Some("u"))), &found(false, new)),
        Some("missing timer")
    );
    assert_eq!(
        needs_rewrite(&job("a", cron(Some("u"))), &found(true, "usched-run x")),
        Some("legacy ExecStart format")
    );
    assert_eq!(
        needs_rewrite(&job("a", cron(Some("u"))), &found(true, new)),
        None
    );
}

/// Runs a synchronisation in which only the unit `usched-ok` is healthy.
fn run(store: JobStore, outcome: Result<(), &str>) -> (TimerSync, Vec<String>) {
    let mut sync = TimerSync::start(store);
    let mut said = vec![];
    loop {
        let healthy = match sync.next_job() {
            Some(job) => job.schedule.handle() == Some("usched-ok"),
            None => false,
        };
        match sync.step(NOW, &found(healthy, "__run-job"), &env()) {
            SyncAction::Done => break,
            SyncAction::Passed => {}
            SyncAction::Rewrite { message, plan } => {
                said.push(message);
                let result = match plan {
                    Ok(_) => sync.record(outcome),
                    Err(e) => sync.record(Err(&e.message())),
                };
                said.push(result);
            }
        }
    }
    (sync, said)
}

fn store() -> JobStore {
    let mut store = JobStore::default();
    store.add(job("ok", cron(Some("usched-ok"))));
    store.add(job("none", cron(None)));
    store.add(job("f", fired()));
    store
}

#[test]
fn missing_timers_are_made_anew_and_stay() {
    let (mut sync, said) = run(store(), Ok(()));
    assert_eq!(
        said,
        [
            "Rewriting timer for 'none' (no unit recorded)...",
            "  Wrote: usched-none"
        ]
    );
    assert_eq!(
        sync.store.get("none").unwrap().schedule.handle(),
        Some("usched-none")
    );
    let names: Vec<String> = ["usched-none.timer", "usched-ok.timer", "usched-x.timer"]
        .iter()
        .map(|s| s.to_string())
        .collect();
    let cleaned = sync.clean(&names, "/u");
    assert_eq!(cleaned.len(), 1);
    assert_eq!(cleaned[0].unit, "usched-x");
    assert_eq!(cleaned[0].message, "Cleaning orphaned timer: usched-x");
    assert_eq!(cleaned[0].steps.len(), 6);
    assert_eq!(
        sync.summary(),
        "Sync complete: 1 ok, 1 fixed, 1 orphans cleaned, 1 skipped (already-fired one-offs)"
    );
}

#[test]
fn timers_that_cannot_be_made_are_told() {
    let (sync, said) = run(store(), Err("no bus"));
    assert_eq!(
        said[1],
        "  Failed to recreate timer for 'none': no bus"
    );
    assert_eq!(sync.fixed, 0);
    assert!(sync.store.get("none").unwrap().schedule.handle().is_none());
    let mut bad = JobStore::default();
    bad.add(job(
        "bad",
        Schedule::Cron {
            expr: "0 9".to_string(),
            unit: None,
        },
    ));
    let (_, said) = run(bad, Ok(()));
    assert_eq!(
        said[1],
        "  Failed to recreate timer for 'bad': Invalid cron expression: expected 5 fields, got 2"
    );
}

fn finding(command_found: bool, healthy: bool) -> Finding {
    Finding {
        command_found,
        now: NOW,
        report: report(healthy),
    }
}

#[test]
fn check_with_no_jobs() {
    let jobs: Vec<&Job> = vec![];
    assert_eq!(
        cmd_check(&jobs, &vec![], &vec!["usched-x".to_string()]),
        ["No jobs configured."]
    );
}

#[test]
fn check_passes() {
    let a = job("a", cron(Some("usched-a")));
    let f = job("f", fired());
    let lines = cmd_check(
        &vec![&a, &f],
        &vec![finding(true, true), finding(true, false)],
        &vec![],
    );
    assert_eq!(lines, ["✓ a (a)", "✓ f (f)", "", "All checks passed."]);
}

#[test]
fn check_tells_every_issue() {
    let mut a = job("a", cron(Some("usched-a")));
    a.name = "n".to_string();
    let mut b = job("b", cron(None));
    b.name = "n".to_string();
    let lines = cmd_check(
        &vec![&a, &b],
        &vec![finding(false, false), finding(true, true)],
        &vec!["usched-x".to_string()],
    );
    assert_eq!(
        lines,
        [
            "✗ a (n):",
            "    - command 'echo' not found in PATH",
            "    - timer 'usched-a' not enabled/healthy",
            "    - duplicate name 'n' (2 jobs)",
            "✗ b (n):",
            "    - no systemd unit recorded",
            "    - duplicate name 'n' (2 jobs)",
            "",
            "Orphaned timers (1):",
            "  ✗ usched-x (not in jobs.json — run 'usched sync' to clean)",
            "",
            "6 issue(s) found. Run 'usched sync' to fix timer issues.",
        ]
    );
    assert_eq!(known_units(&vec![&a, &b]), ["usched-a"]);
}

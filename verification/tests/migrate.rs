use usched::job::{Constraints, Job, Schedule};
use usched::migrate::{best_effort_atrm, should_atrm, Atrm, Migration, Progress};
use usched::moment::Timestamp;
use usched::store::JobStore;
use usched::systemd::{Step, UnitEnv};

const NOW: Timestamp = Timestamp {
    secs: 1_800_000_000,
    nanos: 0,
};

fn env() -> UnitEnv {
    UnitEnv {
        systemd_dir: "/u".to_string(),
        usched_path: "usched".to_string(),
        path_env: "/bin".to_string(),
    }
}

fn once(id: &str, secs: i64, unit: Option<&str>, at_job: Option<&str>) -> Job {
    Job {
        id: id.to_string(),
        name: id.to_string(),
        schedule: Schedule::Once {
            at: Timestamp { secs, nanos: 0 },
            unit: unit.map(|s| s.to_string()),
            at_job: at_job.map(|s| s.to_string()),
        },
        command: vec!["echo".to_string()],
        constraints: Constraints::default(),
        enabled: true,
        created_at: Timestamp {
            secs: 1_700_000_000,
            nanos: 0,
        },
        created_by: "user".to_string(),
    }
}

/// Runs a migration whose timers are all created, or all fail.
fn run(store: JobStore, outcome: Result<(), &str>) -> (Migration, Vec<String>, Vec<String>) {
    let mut m = Migration::start(store);
    let mut said = vec![];
    let mut removed = vec![];
    loop {
        match m.step(NOW, &env()) {
            Progress::Done => break,
            Progress::Passed => {}
            Progress::Dropped {
                message,
                legacy_handle,
            } => {
                said.push(message);
                removed.push(legacy_handle);
            }
            Progress::Schedule {
                plan,
                legacy_handle,
            } => {
                assert!(matches!(plan.steps[0], Step::CreateDir(_)));
                said.push(m.record(outcome));
                if outcome.is_ok() {
                    removed.push(legacy_handle);
                }
            }
        }
    }
    (m, said, removed)
}

#[test]
fn migrate_from_at_re_registers_legacy_once_jobs_on_systemd() {
    let mut store = JobStore::default();
    store.add(once("legacy-1", 4_085_164_800, None, Some("42")));
    let (m, said, removed) = run(store, Ok(()));
    assert_eq!(
        m.summary(),
        "Migration complete: 1 migrated to systemd, 0 dropped (past due), 0 unchanged"
    );
    match &m.store.get("legacy-1").unwrap().schedule {
        Schedule::Once { unit, at_job, .. } => {
            assert_eq!(unit.as_deref(), Some("usched-legacy-1"));
            assert!(at_job.is_none());
        }
        _ => panic!("wrong variant"),
    }
    assert_eq!(
        said,
        ["[migrate] migrated 'legacy-1' to systemd timer 'usched-legacy-1'"]
    );
    assert_eq!(removed, ["42"]);
}

#[test]
fn migrate_from_at_is_idempotent() {
    let mut store = JobStore::default();
    store.add(once("fresh", 4_085_164_800, Some("usched-fresh"), None));
    store.add(once("legacy-1", 4_085_164_800, None, Some("42")));
    let (m, _, _) = run(store, Ok(()));
    assert_eq!((m.migrated, m.dropped, m.kept), (1, 0, 1));
    let (m, said, _) = run(m.store, Ok(()));
    assert_eq!((m.migrated, m.dropped, m.kept), (0, 0, 2));
    assert!(said.is_empty());
}

#[test]
fn migrate_from_at_drops_past_due_jobs() {
    let mut store = JobStore::default();
    store.add(once("stale-1", 946_684_800, None, Some("13")));
    let (m, said, removed) = run(store, Ok(()));
    assert_eq!((m.migrated, m.dropped, m.kept), (0, 1, 0));
    assert!(m.store.get("stale-1").is_none());
    assert_eq!(
        said,
        ["[migrate] dropping past-due one-shot 'stale-1' (fire time 2000-01-01 00:00:00)"]
    );
    assert_eq!(removed, ["13"]);
}

#[test]
fn jobs_whose_timer_fails_are_kept() {
    let mut store = JobStore::default();
    store.add(once("legacy-1", 4_085_164_800, None, Some("42")));
    let (m, said, _) = run(store, Err("no bus"));
    assert_eq!((m.migrated, m.dropped, m.kept), (0, 0, 1));
    assert_eq!(
        said,
        ["[migrate] failed to migrate 'legacy-1': no bus (left as-is)"]
    );
    match &m.store.get("legacy-1").unwrap().schedule {
        Schedule::Once { unit, at_job, .. } => {
            assert!(unit.is_none());
            assert_eq!(at_job.as_deref(), Some("42"));
        }
        _ => panic!("wrong variant"),
    }
}

#[test]
fn every_job_is_counted_once() {
    let mut store = JobStore::default();
    store.add(once("a", 4_085_164_800, None, Some("1")));
    store.add(once("b", 0, None, Some("2")));
    store.add(once("c", 0, None, None));
    store.add(once("d", 0, Some("u"), Some("3")));
    let (m, _, removed) = run(store, Ok(()));
    assert_eq!((m.migrated, m.dropped, m.kept), (1, 1, 2));
    assert_eq!(removed, ["1", "2"]);
    assert_eq!(m.store.list().len(), 3);
    let (m, said, removed) = run(m.store, Ok(()));
    assert_eq!((m.migrated, m.dropped, m.kept), (0, 0, 3));
    assert!(said.is_empty() && removed.is_empty());
}

#[test]
fn queue_is_cleared_as_far_as_it_goes() {
    assert!(should_atrm("42"));
    assert!(!should_atrm(""));
    assert!(!should_atrm("unknown"));
    assert!(best_effort_atrm("42", &Atrm::Removed).is_none());
    assert_eq!(
        best_effort_atrm("42", &Atrm::Failed(" oops\n".to_string())).unwrap(),
        "[migrate] warning: atrm 42 failed (left in at-queue): oops"
    );
    assert_eq!(
        best_effort_atrm("42", &Atrm::NotStarted("missing".to_string())).unwrap(),
        "[migrate] warning: could not invoke atrm for 42 (missing). The at-queue entry (if any) was left untouched."
    );
}

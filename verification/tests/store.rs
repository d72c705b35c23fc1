use usched::job::{Constraints, Job, Schedule};
use usched::moment::Timestamp;
use usched::path::join_path;
use usched::store::{get_data_dir, jobs_path, state_path, JobStore, State};

fn job(id: &str, age: i64) -> Job {
    Job {
        id: id.to_string(),
        name: format!("name of {}", id),
        schedule: Schedule::Cron {
            expr: "0 9 * * *".to_string(),
            unit: None,
        },
        command: vec!["true".to_string()],
        constraints: Constraints::default(),
        enabled: true,
        created_at: Timestamp {
            secs: age,
            nanos: 0,
        },
        created_by: "user".to_string(),
    }
}

#[test]
fn jobs_are_added_found_and_removed() {
    let mut store = JobStore::default();
    assert!(store.get("a").is_none());
    store.add(job("a", 1));
    store.add(job("b", 2));
    assert_eq!(store.get("a").unwrap().name, "name of a");
    assert_eq!(store.jobs.len(), 2);
    assert_eq!(store.remove("a").unwrap().id, "a");
    assert!(store.get("a").is_none());
    assert!(store.remove("a").is_none());
    assert_eq!(store.get("b").unwrap().id, "b");
}

#[test]
fn adding_under_a_taken_id_replaces() {
    let mut store = JobStore::default();
    store.add(job("a", 1));
    let mut other = job("a", 2);
    other.name = "other".to_string();
    store.add(other);
    assert_eq!(store.jobs.len(), 1);
    assert_eq!(store.get("a").unwrap().name, "other");
}

#[test]
fn jobs_are_changed_in_place() {
    let mut store = JobStore::default();
    store.add(job("a", 1));
    store.add(job("b", 2));
    store.get_mut("a").unwrap().enabled = false;
    assert!(!store.get("a").unwrap().enabled);
    assert!(store.get("b").unwrap().enabled);
    assert!(store.get_mut("c").is_none());
}

#[test]
fn listing_puts_the_oldest_first() {
    let mut store = JobStore::default();
    for (id, age) in [("d", 4), ("a", 1), ("c", 3), ("b", 1), ("e", 2)] {
        store.add(job(id, age));
    }
    let ids: Vec<&str> = store.list().iter().map(|j| j.id.as_str()).collect();
    assert_eq!(ids, ["a", "b", "e", "c", "d"]);
}

#[test]
fn dnd_is_on_up_to_its_end() {
    let mut state = State::default();
    let at = |secs: i64| Timestamp { secs, nanos: 0 };
    assert!(!state.is_dnd_active());
    state.set_dnd(at(100));
    assert!(state.is_dnd_active_at(at(99)));
    assert!(!state.is_dnd_active_at(at(100)));
    assert!(!state.is_dnd_active());
    state.set_dnd(at(usched::moment::MAX_SECS));
    assert!(state.is_dnd_active());
    state.clear_dnd();
    assert!(!state.is_dnd_active_at(at(0)));
}

#[test]
fn files_lie_in_the_data_directory() {
    let dir = get_data_dir(Some("/home/u/.local/share"));
    assert_eq!(dir, "/home/u/.local/share/usched");
    assert_eq!(jobs_path(&dir), "/home/u/.local/share/usched/jobs.json");
    assert_eq!(state_path(&dir), "/home/u/.local/share/usched/state.json");
    assert_eq!(
        usched::history::db_path(&dir),
        "/home/u/.local/share/usched/history.db"
    );
    assert_eq!(get_data_dir(None), "./usched");
}

#[test]
fn paths_join_as_in_std() {
    for (base, name) in [
        ("/a", "b"),
        ("/a/", "b"),
        ("", "b"),
        ("a", "/b"),
        (".", "b/c"),
    ] {
        let expected = std::path::PathBuf::from(base).join(name);
        assert_eq!(join_path(base, name), expected.to_str().unwrap());
    }
}

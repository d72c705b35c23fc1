use usched::backend::Backend;
use usched::job::{
    default_created_by, find_range, Constraints, Job, RawJob, Schedule, TimeRange,
};
use usched::moment::{TimeOfDay, Timestamp};

fn t(h: u32, m: u32) -> TimeOfDay {
    TimeOfDay::from_hms(h, m, 0).unwrap()
}

fn tr(start: (u32, u32), end: (u32, u32)) -> TimeRange {
    TimeRange {
        start: t(start.0, start.1),
        end: t(end.0, end.1),
    }
}

#[test]
fn time_range_normal_contains() {
    let r = tr((9, 0), (17, 0));
    assert!(r.contains(t(12, 0)));
    assert!(r.contains(t(9, 0)));
    assert!(!r.contains(t(17, 0)));
    assert!(!r.contains(t(8, 59)));
    assert!(!r.contains(t(18, 0)));
}

#[test]
fn time_range_midnight_wrap_contains() {
    let r = tr((22, 0), (8, 0));
    assert!(r.contains(t(23, 0)));
    assert!(r.contains(t(0, 0)));
    assert!(r.contains(t(7, 59)));
    assert!(r.contains(t(22, 0)));
    assert!(!r.contains(t(8, 0)));
    assert!(!r.contains(t(12, 0)));
    assert!(!r.contains(t(21, 59)));
}

#[test]
fn time_range_from_a_time_to_itself_is_the_whole_day() {
    let r = tr((6, 0), (6, 0));
    assert!(r.contains(t(6, 0)));
    assert!(r.contains(t(5, 59)));
    assert!(r.contains(t(0, 0)));
}

#[test]
fn ranges_with_ends_exchanged_divide_the_day() {
    let r = tr((22, 0), (8, 0));
    let other = tr((8, 0), (22, 0));
    for h in 0..24 {
        assert_ne!(r.contains(t(h, 0)), other.contains(t(h, 0)));
    }
}

#[test]
fn first_of_several_ranges_is_found() {
    let ranges = vec![tr((1, 0), (2, 0)), tr((9, 0), (17, 0)), tr((8, 0), (18, 0))];
    assert_eq!(find_range(&ranges, t(12, 0)), Some(1));
    assert_eq!(find_range(&ranges, t(8, 30)), Some(2));
    assert_eq!(find_range(&ranges, t(20, 0)), None);
}

#[test]
fn generate_id_contains_name() {
    let id = Job::generate_id("morning-check");
    assert!(id.starts_with("morning-check-"));
    let suffix = id.strip_prefix("morning-check-").unwrap();
    assert_eq!(suffix.len(), 6);
    assert!(suffix
        .chars()
        .all(|c| c.is_ascii_hexdigit() && !c.is_ascii_uppercase()));
}

#[test]
fn generate_id_unique() {
    let a = Job::generate_id("x");
    let b = Job::generate_id("x");
    assert_ne!(a, b);
}

#[test]
fn id_ends_with_six_characters_of_the_tag() {
    assert_eq!(Job::id_with("a b", "0123456789"), "a b-012345");
    assert_eq!(Job::id_with("", "abcdef"), "-abcdef");
}

fn text_of(v: &serde_json::Value) -> Option<String> {
    v.as_str().map(|s| s.to_string())
}

fn instant_of(v: &serde_json::Value) -> Timestamp {
    let t: chrono::DateTime<chrono::Utc> = v.as_str().unwrap().parse().unwrap();
    Timestamp {
        secs: t.timestamp(),
        nanos: t.timestamp_subsec_nanos(),
    }
}

fn read_job(json: &str) -> Job {
    let v: serde_json::Value = serde_json::from_str(json).unwrap();
    let s = &v["schedule"];
    let schedule = match s["type"].as_str().unwrap() {
        "once" => Schedule::Once {
            at: instant_of(&s["at"]),
            unit: text_of(&s["unit"]),
            at_job: text_of(&s["at_job"]),
        },
        _ => Schedule::Cron {
            expr: text_of(&s["expr"]).unwrap(),
            unit: text_of(&s["unit"]),
        },
    };
    let command = v["command"]
        .as_array()
        .unwrap()
        .iter()
        .map(|c| text_of(c).unwrap())
        .collect();
    RawJob {
        id: text_of(&v["id"]).unwrap(),
        name: text_of(&v["name"]).unwrap(),
        schedule,
        command,
        constraints: None,
        enabled: v["enabled"].as_bool().unwrap(),
        created_at: instant_of(&v["created_at"]),
        created_by: text_of(&v["created_by"]),
        systemd_unit: text_of(&v["systemd_unit"]),
        at_job: text_of(&v["at_job"]),
    }
    .into_job()
}

#[test]
fn job_deserializes_legacy_systemd_unit_into_schedule() {
    let json = r#"{
        "id": "j-1",
        "name": "j",
        "schedule": {"type": "cron", "expr": "0 9 * * *"},
        "command": ["true"],
        "constraints": {},
        "enabled": true,
        "created_at": "2026-01-01T00:00:00Z",
        "created_by": "user",
        "systemd_unit": "usched-j-1"
    }"#;
    let job = read_job(json);
    match job.schedule {
        Schedule::Cron { expr, unit } => {
            assert_eq!(expr, "0 9 * * *");
            assert_eq!(unit.as_deref(), Some("usched-j-1"));
        }
        _ => panic!("wrong variant"),
    }
}

#[test]
fn job_deserializes_legacy_at_job_into_schedule() {
    let json = r#"{
        "id": "o-1",
        "name": "o",
        "schedule": {"type": "once", "at": "2099-01-01T00:00:00Z"},
        "command": ["true"],
        "constraints": {},
        "enabled": true,
        "created_at": "2026-01-01T00:00:00Z",
        "created_by": "user",
        "at_job": "42"
    }"#;
    let job = read_job(json);
    match job.schedule {
        Schedule::Once { at_job, .. } => {
            assert_eq!(at_job.as_deref(), Some("42"));
        }
        _ => panic!("wrong variant"),
    }
}

#[test]
fn job_deserializes_new_layout_handle_inside_schedule() {
    let json = r#"{
        "id": "j-2",
        "name": "j",
        "schedule": {"type": "cron", "expr": "0 9 * * *", "unit": "usched-j-2"},
        "command": ["true"],
        "constraints": {},
        "enabled": true,
        "created_at": "2026-01-01T00:00:00Z",
        "created_by": "user"
    }"#;
    let job = read_job(json);
    match job.schedule {
        Schedule::Cron { unit, .. } => {
            assert_eq!(unit.as_deref(), Some("usched-j-2"));
        }
        _ => panic!("wrong variant"),
    }
}

#[test]
fn inner_handle_wins_and_missing_parts_have_defaults() {
    let json = r#"{
        "id": "j-3",
        "name": "j",
        "schedule": {"type": "cron", "expr": "0 9 * * *", "unit": "inner"},
        "command": ["true"],
        "enabled": false,
        "created_at": "2026-01-01T00:00:00Z",
        "systemd_unit": "outer",
        "at_job": "7"
    }"#;
    let job = read_job(json);
    assert_eq!(job.schedule.handle(), Some("inner"));
    assert_eq!(job.created_by, "user");
    assert_eq!(job.created_by, default_created_by());
    assert!(!job.enabled);
    assert!(job.constraints.not_during.is_empty());
    assert!(!job.constraints.dnd_aware);
    assert_eq!(job.created_at.secs, 1_767_225_600);
}

#[test]
fn handle_is_set_and_found() {
    let at = Timestamp { secs: 5, nanos: 0 };
    let mut once = Schedule::Once {
        at,
        unit: None,
        at_job: Some("3".to_string()),
    };
    assert_eq!(once.handle(), None);
    assert_eq!(once.backend(), Backend::Systemd);
    once.set_handle("u".to_string());
    assert_eq!(once.handle(), Some("u"));
    match once {
        Schedule::Once { at_job, .. } => assert_eq!(at_job.as_deref(), Some("3")),
        _ => panic!("wrong variant"),
    }
    let mut cron = Schedule::Cron {
        expr: "* * * * *".to_string(),
        unit: None,
    };
    cron.set_handle("v".to_string());
    assert_eq!(cron.handle(), Some("v"));
    assert!(!cron.already_fired(at));
}

#[test]
fn single_firings_are_over_from_their_time_on() {
    let s = Schedule::Once {
        at: Timestamp { secs: 10, nanos: 5 },
        unit: None,
        at_job: None,
    };
    assert!(!s.already_fired(Timestamp { secs: 10, nanos: 4 }));
    assert!(s.already_fired(Timestamp { secs: 10, nanos: 5 }));
    assert!(s.already_fired(Timestamp { secs: 11, nanos: 0 }));
}

#[test]
fn copies_are_equal() {
    let c = Constraints {
        not_during: vec![tr((1, 0), (2, 0))],
        only_during: vec![tr((3, 0), (4, 0))],
        dnd_aware: true,
        remove_on_success: true,
        after: Some("a".to_string()),
    };
    let d = c.clone();
    assert_eq!(d.not_during, vec![tr((1, 0), (2, 0))]);
    assert_eq!(d.only_during, vec![tr((3, 0), (4, 0))]);
    assert_eq!(d.after.as_deref(), Some("a"));
    assert!(d.dnd_aware && d.remove_on_success);
}

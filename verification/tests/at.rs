use usched::at::{
    at_job, parse_at_job_number, remove_at, schedule_at, shell_escape, AtRemoval,
};
use usched::moment::Timestamp;

#[test]
fn parse_at_job_number_typical() {
    let out =
        "warning: commands will be executed using /bin/sh\njob 17 at Thu Jan 16 14:00:00 2025\n";
    assert_eq!(parse_at_job_number(out), Some("17".to_string()));
}

#[test]
fn parse_at_job_number_missing() {
    assert_eq!(parse_at_job_number("nothing here"), None);
}

#[test]
fn shell_escape_basic() {
    assert_eq!(shell_escape("plain"), "plain");
    assert_eq!(shell_escape("with space"), "'with space'");
    assert_eq!(shell_escape("$var"), "'$var'");
    assert_eq!(shell_escape("it's"), "'it'\\''s'");
}

#[test]
fn first_line_with_a_number_counts() {
    assert_eq!(
        parse_at_job_number("job \r\njob 3 x\njob 4"),
        Some("3".to_string())
    );
    assert_eq!(parse_at_job_number(" job 3"), None);
    assert_eq!(at_job("job 9 at noon"), "9");
    assert_eq!(at_job("no"), "unknown");
}

#[test]
fn request_names_the_job_and_the_local_time() {
    let r = schedule_at(
        "it's",
        Timestamp {
            secs: 4_085_164_800,
            nanos: 0,
        },
        &vec!["echo".to_string()],
        "/usr/bin/usched",
    );
    assert_eq!(r.line, "/usr/bin/usched __run-job 'it'\\''s'");
    let local = chrono::DateTime::from_timestamp(4_085_164_800, 0)
        .unwrap()
        .with_timezone(&chrono::Local);
    assert_eq!(r.time_spec, local.format("%H:%M %Y-%m-%d").to_string());
}

#[test]
fn removal_is_judged_by_what_atrm_says() {
    assert!(matches!(remove_at(true, "noise"), AtRemoval::Gone));
    assert!(matches!(
        remove_at(false, "atrm: cannot find jobid 4"),
        AtRemoval::Gone
    ));
    match remove_at(false, " Cannot get uid for atd\n") {
        AtRemoval::Unserved(t) => assert!(t.starts_with(
            "warning: atrm could not reach atd (Cannot get uid for atd). The at-queue"
        )),
        _ => panic!("wrong variant"),
    }
    match remove_at(false, "boom") {
        AtRemoval::Failed(t) => assert_eq!(t, "atrm failed: boom"),
        _ => panic!("wrong variant"),
    }
}

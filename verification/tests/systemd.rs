use usched::backend::Backend;
use usched::cron_convert::CronError;
use usched::job::{Constraints, Job, Schedule};
use usched::moment::Timestamp;
use usched::systemd::{
    create_timer, create_timer_at, disable_timer, enable_timer, find_orphaned_timers,
    get_usched_path, is_enabled_args, list_timers, recreate_timer, remove_timer, systemd_quote,
    systemd_user_dir, timer_is_legacy, verify_timer, Failure, Step, TimerReport, UnitEnv,
};

#[test]
fn quote_plain() {
    assert_eq!(systemd_quote("plain"), "plain");
    assert_eq!(systemd_quote("/usr/bin/touch"), "/usr/bin/touch");
    assert_eq!(systemd_quote("--cron"), "--cron");
}

#[test]
fn quote_whitespace() {
    assert_eq!(systemd_quote("with space"), "\"with space\"");
    assert_eq!(systemd_quote("a\tb"), "\"a\tb\"");
}

#[test]
fn quote_special_chars() {
    assert_eq!(systemd_quote("it's"), "\"it's\"");
    assert_eq!(systemd_quote(r#"a"b"#), "\"a\\\"b\"");
    assert_eq!(systemd_quote(r"a\b"), r#""a\\b""#);
    assert_eq!(systemd_quote("$VAR"), "\"$$VAR\"");
    assert_eq!(systemd_quote("100%done"), "\"100%%done\"");
}

#[test]
fn quote_empty() {
    assert_eq!(systemd_quote(""), "\"\"");
}

#[test]
fn quote_realistic_shell_command() {
    assert_eq!(
        systemd_quote("echo fired > /home/testuser/marker"),
        "\"echo fired > /home/testuser/marker\""
    );
}

#[test]
fn quote_escapes_each_character_once() {
    assert_eq!(systemd_quote("\\\""), "\"\\\\\\\"\"");
    assert_eq!(systemd_quote("a\u{a0}b"), "\"a\u{a0}b\"");
}

fn env() -> UnitEnv {
    UnitEnv {
        systemd_dir: "/home/u/.config/systemd/user".to_string(),
        usched_path: "/opt/my apps/usched".to_string(),
        path_env: "/bin:/usr/bin".to_string(),
    }
}

fn args(step: &Step) -> Vec<String> {
    match step {
        Step::Systemctl { args, .. } => args.clone(),
        _ => panic!("no call"),
    }
}

#[test]
fn units_of_a_recurring_job() {
    let plan = create_timer("j-1", "0 9 * * 1-5", &vec!["echo".to_string()], &env()).unwrap();
    assert_eq!(plan.unit, "usched-j-1");
    assert_eq!(plan.steps.len(), 5);
    match &plan.steps[0] {
        Step::CreateDir(p) => assert_eq!(p, "/home/u/.config/systemd/user"),
        _ => panic!("wrong step"),
    }
    match &plan.steps[1] {
        Step::WriteFile { path, content } => {
            assert_eq!(path, "/home/u/.config/systemd/user/usched-j-1.timer");
            assert_eq!(
                content,
                "[Unit]\nDescription=usched job: j-1\n\n[Timer]\nOnCalendar=Mon..Fri *-*-* 09:00\nPersistent=true\nOnBootSec=2min\nRandomizedDelaySec=30\n\n[Install]\nWantedBy=timers.target\n"
            );
        }
        _ => panic!("wrong step"),
    }
    match &plan.steps[2] {
        Step::WriteFile { path, content } => {
            assert_eq!(path, "/home/u/.config/systemd/user/usched-j-1.service");
            assert_eq!(
                content,
                "[Unit]\nDescription=usched job: j-1\n\n[Service]\nType=oneshot\nEnvironment=\"PATH=/bin:/usr/bin\"\nExecStart=\"/opt/my apps/usched\" __run-job j-1\n"
            );
            assert!(!timer_is_legacy(Some(content)));
        }
        _ => panic!("wrong step"),
    }
    assert_eq!(args(&plan.steps[3]), ["--user", "daemon-reload"]);
    assert_eq!(
        args(&plan.steps[4]),
        ["--user", "enable", "--now", "usched-j-1.timer"]
    );
}

#[test]
fn units_of_a_single_firing() {
    let plan = create_timer_at("o-1", "2099-06-15 09:00:00", &env());
    assert_eq!(plan.unit, "usched-o-1");
    match &plan.steps[1] {
        Step::WriteFile { content, .. } => assert_eq!(
            content,
            "[Unit]\nDescription=usched one-shot job: o-1\n\n[Timer]\nOnCalendar=2099-06-15 09:00:00\nPersistent=true\nUnit=usched-o-1.service\n\n[Install]\nWantedBy=timers.target\n"
        ),
        _ => panic!("wrong step"),
    }
}

#[test]
fn bad_expressions_have_no_units() {
    let e = create_timer("j", "0 9", &vec![], &env()).unwrap_err();
    assert_eq!(e, CronError::FieldCount(2));
}

#[test]
fn single_firings_are_written_in_local_time() {
    let at = Timestamp {
        secs: 4_085_164_800,
        nanos: 0,
    };
    let job = Job {
        id: "o-2".to_string(),
        name: "o".to_string(),
        schedule: Schedule::Once {
            at,
            unit: None,
            at_job: None,
        },
        command: vec!["true".to_string()],
        constraints: Constraints::default(),
        enabled: true,
        created_at: at,
        created_by: "user".to_string(),
    };
    let local = chrono::DateTime::from_timestamp(at.secs, 0)
        .unwrap()
        .with_timezone(&chrono::Local);
    let line = format!("OnCalendar={}\n", local.format("%Y-%m-%d %H:%M:%S"));
    let plans = vec![
        recreate_timer(&job, &env()).unwrap(),
        Backend::Systemd.schedule(&job, &env()).unwrap(),
    ];
    for plan in plans {
        match &plan.steps[1] {
            Step::WriteFile { content, .. } => assert!(content.contains(&line)),
            _ => panic!("wrong step"),
        }
    }
}

#[test]
fn removal_takes_away_what_was_written() {
    let steps = remove_timer("usched-j-1", "/d/");
    assert_eq!(steps.len(), 6);
    assert_eq!(args(&steps[0]), ["--user", "stop", "usched-j-1.timer"]);
    assert_eq!(args(&steps[1]), ["--user", "disable", "usched-j-1.timer"]);
    assert_eq!(args(&steps[2]), ["--user", "stop", "usched-j-1.service"]);
    match (&steps[3], &steps[4]) {
        (Step::RemoveFile(a), Step::RemoveFile(b)) => {
            assert_eq!(a, "/d/usched-j-1.timer");
            assert_eq!(b, "/d/usched-j-1.service");
        }
        _ => panic!("wrong steps"),
    }
    assert_eq!(args(&steps[5]), ["--user", "daemon-reload"]);
    for i in [0, 1, 2, 5] {
        match &steps[i] {
            Step::Systemctl { failure, .. } => assert_eq!(*failure, Failure::Ignored),
            _ => panic!("wrong step"),
        }
    }
}

#[test]
fn timers_are_enabled_and_disabled() {
    let on = enable_timer("u");
    assert_eq!(on.len(), 1);
    assert_eq!(args(&on[0]), ["--user", "enable", "--now", "u.timer"]);
    let off = disable_timer("u");
    assert_eq!(off.len(), 2);
    assert_eq!(args(&off[0]), ["--user", "stop", "u.timer"]);
    assert_eq!(args(&off[1]), ["--user", "disable", "u.timer"]);
    assert_eq!(list_timers(), ["--user", "list-timers", "--all"]);
    assert_eq!(is_enabled_args("u"), ["--user", "is-enabled", "u.timer"]);
}

#[test]
fn failures_are_told_or_ignored() {
    assert_eq!(
        Failure::Reload.outcome(Some((false, "no bus"))),
        Err("daemon-reload failed: no bus".to_string())
    );
    assert_eq!(
        Failure::Enable.outcome(Some((false, "x"))),
        Err("Failed to enable timer: x".to_string())
    );
    assert_eq!(
        Failure::Stop.outcome(None),
        Err("Failed to stop timer".to_string())
    );
    assert_eq!(
        Failure::Reload.outcome(None),
        Err("Failed to daemon-reload".to_string())
    );
    assert_eq!(Failure::Stop.outcome(Some((true, "x"))), Ok(()));
    assert_eq!(Failure::Ignored.outcome(Some((false, "x"))), Ok(()));
    assert_eq!(Failure::Ignored.outcome(None), Ok(()));
}

fn report(timer: bool, service: bool, answer: Option<&str>) -> TimerReport {
    TimerReport {
        timer_exists: timer,
        service_exists: service,
        is_enabled: answer.map(|s| s.to_string()),
    }
}

#[test]
fn timers_are_healthy_when_files_and_systemd_agree() {
    assert!(verify_timer(&report(true, true, Some("enabled\n"))));
    assert!(verify_timer(&report(true, true, Some("static"))));
    assert!(!verify_timer(&report(true, true, Some("disabled"))));
    assert!(!verify_timer(&report(true, true, None)));
    assert!(!verify_timer(&report(false, true, Some("enabled"))));
    assert!(!Backend::Systemd.verify(&report(true, false, Some("enabled"))));
}

fn strings(list: &[&str]) -> Vec<String> {
    list.iter().map(|s| s.to_string()).collect()
}

#[test]
fn orphans_are_timers_that_no_job_is_known_for() {
    let names = strings(&[
        "usched-a.timer",
        "usched-a.service",
        "other.timer",
        "usched-b.timer",
        "usched-c.timer.timer",
    ]);
    assert_eq!(
        find_orphaned_timers(&names, &strings(&["usched-a"])),
        strings(&["usched-b", "usched-c"])
    );
    assert!(find_orphaned_timers(&names, &strings(&["usched-a", "usched-b", "usched-c"])).is_empty());
}

#[test]
fn old_services_are_recognised() {
    assert!(timer_is_legacy(Some("ExecStart=usched-run j-1 echo")));
    assert!(!timer_is_legacy(Some("ExecStart=usched __run-job j-1")));
    assert!(!timer_is_legacy(None));
}

#[test]
fn program_is_looked_for_in_three_places() {
    assert_eq!(
        get_usched_path(Some(" /bin/usched\n"), "/h", true),
        "/bin/usched"
    );
    assert_eq!(
        get_usched_path(Some("\n"), "/h", true),
        "/h/.nix-profile/bin/usched"
    );
    assert_eq!(get_usched_path(None, "/h", false), "usched");
    assert_eq!(systemd_user_dir("/h"), "/h/.config/systemd/user");
}

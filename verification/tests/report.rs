use usched::dnd::{clear_dnd, dnd_status, dnd_status_at, set_dnd, set_dnd_from, show_dnd_status};
use usched::export::{cmd_export, export_markdown};
use usched::history::{
    cmd_history, count_query, describe, execution_of, execution_with, finish_query, mean_query,
    print_history, query_history, record_finish, record_skip, record_start, skip_query,
    start_query, stats_line, Count, Execution, Param, Query, Row,
};
use usched::job::{Constraints, Job, Schedule, TimeRange};
use usched::listing::cmd_next;
use usched::moment::{
    clock_text, instant_text, local_text, utc_text, Duration, LocalDateTime, Pattern, TimeOfDay,
    Timestamp,
};
use usched::preview::{
    cmd_preview, fires_at, format_duration, preview, upcoming_runs, PreviewError, Run,
};
use usched::store::State;

fn at(secs: i64) -> Timestamp {
    Timestamp { secs, nanos: 0 }
}

fn t(h: u32, m: u32) -> TimeOfDay {
    TimeOfDay::from_hms(h, m, 0).unwrap()
}

#[test]
fn dnd_set_persists_then_clears() {
    let mut state = State::default();
    let text = set_dnd(&mut state, "1h").unwrap();
    assert!(text.contains("DND set"));
    assert!(state.dnd_until.is_some());
    assert!(show_dnd_status(&state).contains("DND active"));
    assert!(clear_dnd(&mut state).contains("DND cleared"));
    assert!(show_dnd_status(&state).contains("not active"));
}

#[test]
fn dnd_set_rejects_bad_duration() {
    let mut state = State::default();
    assert!(set_dnd(&mut state, "abc").is_err());
    assert!(set_dnd(&mut state, "0").is_err());
    assert!(state.dnd_until.is_none());
}

#[test]
fn dnd_texts() {
    let mut state = State::default();
    let d = Duration::minutes(90).unwrap();
    assert_eq!(
        set_dnd_from(&mut state, d, at(0)).unwrap(),
        "DND set until 1970-01-01 01:30:00 UTC"
    );
    assert_eq!(state.dnd_until, Some(at(5_400)));
    assert_eq!(
        dnd_status_at(&state, at(0), at(59)),
        "DND active until 1970-01-01 01:30:00 UTC (01h 29m remaining)"
    );
    assert_eq!(dnd_status_at(&state, at(5_400), at(0)), "DND is not active");
    assert_eq!(
        dnd_status(at(0), -61),
        "DND active until 1970-01-01 00:00:00 UTC (-1h -1m remaining)"
    );
    let leap = Timestamp {
        secs: 59,
        nanos: 1_500_000_000,
    };
    state.set_dnd(at(119));
    assert_eq!(
        dnd_status_at(&state, at(0), leap),
        "DND active until 1970-01-01 00:01:59 UTC (00h 00m remaining)"
    );
    state.set_dnd(at(120));
    assert_eq!(
        dnd_status_at(&state, at(0), leap),
        "DND active until 1970-01-01 00:02:00 UTC (00h 01m remaining)"
    );
    state.set_dnd(at(5_400));
    assert!(set_dnd_from(&mut state, d, at(usched::moment::MAX_SECS)).is_none());
    assert_eq!(state.dnd_until, Some(at(5_400)));
}

#[test]
fn durations_in_words() {
    assert_eq!(format_duration(-5), "in -5 min");
    assert_eq!(format_duration(59), "in 59 min");
    assert_eq!(format_duration(60), "in 1h");
    assert_eq!(format_duration(61), "in 1h 1m");
    assert_eq!(format_duration(1_439), "in 23h 59m");
    assert_eq!(format_duration(1_440), "in 1d 0h");
    assert_eq!(format_duration(1_510), "in 1d 1h");
}

fn run_at(day: i32, time: TimeOfDay) -> Run {
    let secs = (day as i64 - 719_163) * 86_400 + time.secs as i64;
    Run {
        instant: at(secs),
        local: LocalDateTime { day, time },
    }
}

#[test]
fn previews_keep_out_of_a_range() {
    let runs = vec![
        run_at(719_163, t(9, 0)),
        run_at(719_163, t(23, 0)),
        run_at(719_164, t(9, 0)),
        run_at(719_165, t(9, 0)),
    ];
    let range = TimeRange {
        start: t(22, 0),
        end: t(8, 0),
    };
    assert_eq!(
        preview("0 9,23 * * *", Some(range), &runs, at(0), 2),
        [
            "Cron: 0 9,23 * * *",
            "Not during: 22:00:00-08:00:00",
            "",
            "  1970-01-01 09:00 Thu  (in 9h)",
            "  1970-01-02 09:00 Fri  (in 1d 9h)",
        ]
    );
    assert_eq!(
        preview("x", Some(range), &vec![run_at(719_163, t(23, 0))], at(0), 1)[3],
        "  (no runs within the next 3 candidates)"
    );
    assert_eq!(preview("x", None, &runs, at(0), 1).len(), 3);
}

#[test]
fn preview_prints_upcoming_runs() {
    let lines = cmd_preview("0 9 * * *", 3, None).unwrap();
    assert_eq!(lines[0], "Cron: 0 9 * * *");
    assert_eq!(lines[1], "");
    assert_eq!(lines.len(), 5);
    for line in &lines[2..] {
        assert!(line.contains(" 09:00 "), "line was {}", line);
    }
    let held_up = cmd_preview("0 9 * * *", 2, Some("08:00-10:00")).unwrap();
    assert_eq!(
        held_up[3],
        "  (no runs within the next 6 candidates)"
    );
}

#[test]
fn preview_rejects_invalid_cron() {
    match cmd_preview("not a cron", 5, None) {
        Err(PreviewError::Cron(text)) => {
            assert!(text.starts_with("Invalid cron expression \"not a cron\": "))
        }
        _ => panic!("accepted"),
    }
    assert!(matches!(
        cmd_preview("0 9 * * *", 5, Some("x")),
        Err(PreviewError::Time(_))
    ));
    assert!(cmd_preview("30 0 9 * * *", 1, None).unwrap()[2].contains("09:00"));
}

#[test]
fn previews_tell_of_firings() {
    let at_nine = LocalDateTime {
        day: 719_163,
        time: t(9, 0),
    };
    assert!(fires_at("0 9 * * *", at_nine).unwrap());
    assert!(fires_at("0 0 9 1 1 * 1970", at_nine).unwrap());
    assert!(!fires_at("1 9 * * *", at_nine).unwrap());
    assert!(!fires_at("30 0 9 * * *", at_nine).unwrap());
    assert!(matches!(
        fires_at("not a cron", at_nine),
        Err(PreviewError::Cron(_))
    ));
    let runs = upcoming_runs("0 */7 3-5 * * *", 20).unwrap();
    assert_eq!(runs.len(), 20);
    for run in runs {
        assert!(fires_at("*/7 3-5 * * *", run.local).unwrap());
    }
}

fn execution(exit_code: Option<i32>, ms: Option<i64>, skipped: Option<&str>) -> Execution {
    Execution {
        job_id: "a-1".to_string(),
        job_name: "a".to_string(),
        started_at: at(1_000_000_000),
        finished_at: None,
        exit_code,
        duration_ms: ms,
        skipped_reason: skipped.map(|s| s.to_string()),
    }
}

#[test]
fn history_lines() {
    let line = |e: Execution| describe(&e, "T", "1.5");
    assert_eq!(
        line(execution(None, None, Some("dnd"))),
        "  T a-1 (a) — skipped: dnd"
    );
    assert_eq!(
        line(execution(Some(0), Some(999), None)),
        "  T a-1 (a) — ✓ 999ms"
    );
    assert_eq!(
        line(execution(Some(2), Some(1_500), None)),
        "  T a-1 (a) — ✗ exit 2 1.5s"
    );
    assert_eq!(
        line(execution(Some(0), Some(61_999), None)),
        "  T a-1 (a) — ✓ 1m 1s"
    );
    assert_eq!(
        line(execution(None, None, None)),
        "  T a-1 (a) — … running "
    );
}

#[test]
fn history_is_printed_with_local_times() {
    assert_eq!(
        print_history(&vec![], &vec![]),
        ["No execution history."]
    );
    let local = chrono::DateTime::from_timestamp(1_000_000_000, 0)
        .unwrap()
        .with_timezone(&chrono::Local);
    assert_eq!(
        print_history(&vec![execution(Some(0), Some(5), None)], &vec![String::new()]),
        [format!(
            "  {} a-1 (a) — ✓ 5ms",
            local.format("%Y-%m-%d %H:%M:%S")
        )]
    );
}

#[test]
fn history_heads_and_counts() {
    assert_eq!(
        stats_line(5, 3, 2, Some("12ms")),
        "  runs: 5 | success: 3 | failed: 2 | skipped: 2 | avg duration: 12ms"
    );
    assert_eq!(
        stats_line(0, 0, 0, None),
        "  runs: 0 | success: 0 | failed: 0 | skipped: 0 | avg duration: n/a"
    );
    assert_eq!(
        cmd_history(Some("a"), Some("x")),
        ["History for 'a':", "x", ""]
    );
    assert_eq!(cmd_history(Some("a"), None), ["History for 'a':", ""]);
    assert_eq!(cmd_history(None, None), ["Recent execution history:", ""]);
}

#[test]
fn history_queries() {
    let q = query_history(None, false, 20);
    assert_eq!(
        q.sql,
        "SELECT job_id, job_name, started_at, finished_at, exit_code, duration_ms, skipped_reason FROM executions WHERE 1=1 ORDER BY started_at DESC LIMIT ?"
    );
    assert_eq!(q.params, [Param::Int(20)]);
    let q = query_history(Some("a"), true, 1);
    assert!(q.sql.ends_with(
        " AND (job_id = ? OR job_name = ?) AND (exit_code IS NOT NULL AND exit_code != 0) ORDER BY started_at DESC LIMIT ?"
    ));
    assert_eq!(
        q.params,
        [
            Param::Text("a".to_string()),
            Param::Text("a".to_string()),
            Param::Int(1)
        ]
    );
}

#[test]
fn history_queries_run_in_sqlite() {
    let db = rusqlite::Connection::open_in_memory().unwrap();
    db.execute_batch(
        "CREATE TABLE executions (id INTEGER PRIMARY KEY, job_id TEXT, job_name TEXT, started_at TEXT, finished_at TEXT, exit_code INTEGER, duration_ms INTEGER, skipped_reason TEXT);
         INSERT INTO executions (job_id, job_name, started_at, exit_code) VALUES ('a-1', 'a', '1', 0), ('b-1', 'b', '2', 3), ('a-1', 'a', '3', 4);",
    )
    .unwrap();
    let count = |filter: Option<&str>, failed: bool, limit: usize| {
        let q = query_history(filter, failed, limit);
        let params: Vec<rusqlite::types::Value> = q
            .params
            .iter()
            .map(|p| match p {
                Param::Text(s) => rusqlite::types::Value::Text(s.clone()),
                Param::Int(n) => rusqlite::types::Value::Integer(*n),
            })
            .collect();
        let mut stmt = db.prepare(&q.sql).unwrap();
        let rows = stmt
            .query_map(rusqlite::params_from_iter(params), |row| {
                row.get::<_, i32>(4)
            })
            .unwrap();
        rows.map(|r| r.unwrap()).collect::<Vec<i32>>()
    };
    assert_eq!(count(None, false, 20), [4, 3, 0]);
    assert_eq!(count(Some("a"), false, 20), [4, 0]);
    assert_eq!(count(Some("a-1"), true, 20), [4]);
    assert_eq!(count(None, false, 1), [4]);
}

fn run_query(db: &rusqlite::Connection, q: Query) {
    db.execute(&q.sql, rusqlite::params_from_iter(values(q.params)))
        .unwrap();
}

fn values(params: Vec<Param>) -> Vec<rusqlite::types::Value> {
    params
        .into_iter()
        .map(|p| match p {
            Param::Text(s) => rusqlite::types::Value::Text(s),
            Param::Int(n) => rusqlite::types::Value::Integer(n),
        })
        .collect()
}

fn rows(db: &rusqlite::Connection) -> Vec<Execution> {
    let q = query_history(None, false, 20);
    let mut stmt = db.prepare(&q.sql).unwrap();
    let found = stmt
        .query_map(rusqlite::params_from_iter(values(q.params)), |row| {
            Ok(execution_of(Row {
                job_id: row.get(0)?,
                job_name: row.get(1)?,
                started_at: row.get(2)?,
                finished_at: row.get(3)?,
                exit_code: row.get(4)?,
                duration_ms: row.get(5)?,
                skipped_reason: row.get(6)?,
            }))
        })
        .unwrap();
    found.map(|r| r.unwrap()).collect()
}

#[test]
fn records_are_read_back() {
    let db = rusqlite::Connection::open_in_memory().unwrap();
    db.execute_batch(
        "CREATE TABLE executions (id INTEGER PRIMARY KEY, job_id TEXT, job_name TEXT, started_at TEXT, finished_at TEXT, exit_code INTEGER, duration_ms INTEGER, skipped_reason TEXT);",
    )
    .unwrap();
    let start = Timestamp {
        secs: 1_700_000_000,
        nanos: 120_000_000,
    };
    run_query(&db, start_query("a-1", "a", start));
    run_query(&db, finish_query(1, 3, 1_500, at(1_700_000_002)));
    run_query(&db, skip_query("a-1", "a", "disabled", at(1_700_000_100)));
    let found = rows(&db);
    assert_eq!(found.len(), 2);
    assert_eq!(found[0].started_at, at(1_700_000_100));
    assert_eq!(found[0].skipped_reason.as_deref(), Some("disabled"));
    assert_eq!(found[0].finished_at, None);
    assert_eq!(found[1].job_id, "a-1");
    assert_eq!(found[1].job_name, "a");
    assert_eq!(found[1].started_at, start);
    assert_eq!(found[1].finished_at, Some(at(1_700_000_002)));
    assert_eq!(found[1].exit_code, Some(3));
    assert_eq!(found[1].duration_ms, Some(1_500));

    let before = chrono::Utc::now().timestamp();
    run_query(&db, record_start("b-1", "b"));
    run_query(&db, record_finish(3, 0, 20));
    run_query(&db, record_skip("b-1", "b", "dnd"));
    let found = rows(&db);
    for e in &found[..2] {
        assert!((before..before + 20).contains(&e.started_at.secs));
    }
    let count = |kind: Count, id: &str| -> i64 {
        let q = count_query(kind, id);
        db.query_row(&q.sql, rusqlite::params_from_iter(values(q.params)), |row| row.get(0))
            .unwrap()
    };
    assert_eq!(count(Count::Runs, "a-1"), 1);
    assert_eq!(count(Count::Successes, "a-1"), 0);
    assert_eq!(count(Count::Skips, "a-1"), 1);
    assert_eq!(count(Count::Successes, "b-1"), 1);
    let q = mean_query("b-1");
    let mean: f64 = db
        .query_row(&q.sql, rusqlite::params_from_iter(values(q.params)), |row| row.get(0))
        .unwrap();
    assert_eq!(mean, 20.0);
}

fn row(started_at: &str, finished_at: Option<&str>) -> Row {
    Row {
        job_id: "a-1".to_string(),
        job_name: "a".to_string(),
        started_at: started_at.to_string(),
        finished_at: finished_at.map(|s| s.to_string()),
        exit_code: None,
        duration_ms: None,
        skipped_reason: None,
    }
}

#[test]
fn unreadable_instants_fall_back() {
    let before = chrono::Utc::now().timestamp();
    let e = execution_of(row("yesterday", Some("x")));
    assert!((before..before + 20).contains(&e.started_at.secs));
    assert_eq!(e.finished_at, None);
    let e = execution_of(row("1970-01-01 01:00:00+01:00", Some("1970-01-01T00:00:01.5Z")));
    assert_eq!(e.started_at, at(0));
    assert_eq!(
        e.finished_at,
        Some(Timestamp {
            secs: 1,
            nanos: 500_000_000
        })
    );
    let e = execution_with(row("x", None), None, Some(at(7)), at(5));
    assert_eq!((e.started_at, e.finished_at), (at(5), Some(at(7))));
    let e = execution_with(row("x", None), Some(at(4)), None, at(5));
    assert_eq!((e.started_at, e.finished_at), (at(4), None));
}

#[test]
fn instants_are_stored_and_read_back() {
    let with = |secs: i64, nanos: u32| Timestamp { secs, nanos };
    assert_eq!(instant_text(at(0)), "1970-01-01T00:00:00+00:00");
    assert_eq!(
        instant_text(with(59, 120_000_000)),
        "1970-01-01T00:00:59.120+00:00"
    );
    assert_eq!(
        instant_text(with(0, 120_001_000)),
        "1970-01-01T00:00:00.120001+00:00"
    );
    assert_eq!(
        instant_text(with(-1, 7)),
        "1969-12-31T23:59:59.000000007+00:00"
    );
    assert_eq!(
        instant_text(with(59, 1_500_000_000)),
        "1970-01-01T00:00:60.500+00:00"
    );
    for t in [
        at(0),
        with(-1, 7),
        with(59, 1_500_000_000),
        with(-1, 1_999_999_999),
        with(usched::moment::MIN_SECS, 0),
        with(usched::moment::MAX_SECS, 1_999_999_999),
        with(253_402_300_800, 1_000),
        with(-62_167_219_201, 999_000_000),
    ] {
        assert_eq!(execution_of(row(&instant_text(t), None)).started_at, t);
    }
}

fn job() -> Job {
    let mut c = Constraints::default();
    c.dnd_aware = true;
    c.not_during.push(TimeRange {
        start: t(22, 0),
        end: t(8, 0),
    });
    Job {
        id: "exp-1".to_string(),
        name: "exp".to_string(),
        schedule: Schedule::Cron {
            expr: "0 9 * * *".to_string(),
            unit: None,
        },
        command: vec!["true".to_string()],
        constraints: c,
        enabled: true,
        created_at: at(0),
        created_by: "user".to_string(),
    }
}

#[test]
fn documents_hold_jobs_and_executions() {
    let job = job();
    let md = export_markdown(
        "N",
        &vec![&job],
        &vec![String::new()],
        &vec![
            execution(Some(1), Some(2_000), None),
            execution(None, None, Some("dnd")),
        ],
        &vec!["T".to_string(), "U".to_string()],
        &vec!["2.0".to_string(), String::new()],
    );
    assert_eq!(
        md,
        "# Scheduled Tasks\n\n*Generated: N*\n\n| Job | Schedule | Status | Constraints |\n|-----|----------|--------|-------------|\n| **exp** (`exp-1`) | `0 9 * * *` | enabled | DND-aware, not 22:00-08:00 |\n\n## Recent Executions\n\n- T **a** — ✗ exit 1 2.0s\n- U **a** — skipped (dnd)\n"
    );
}

#[test]
fn export_markdown_to_file() {
    let mut job = job();
    job.constraints = Constraints::default();
    let md = cmd_export(&vec![&job], &vec![], &vec![]);
    assert!(md.contains("# Scheduled Tasks"));
    assert!(md.contains("exp"));
    assert!(md.contains("`0 9 * * *`"));
    assert!(md.ends_with("| enabled | — |\n"));
}

#[test]
fn next_shows_own_timers() {
    let out = "NEXT LEFT\nx usched-a.timer\ny other.timer\n--- rule\n\n3 timers listed.\r\n";
    assert_eq!(
        cmd_next(out),
        [
            "=== Systemd Timers ===",
            "NEXT LEFT",
            "x usched-a.timer",
            "--- rule"
        ]
    );
}

#[test]
fn patterns_write_as_chrono_does() {
    let t = Timestamp {
        secs: 951_782_399,
        nanos: 0,
    };
    assert_eq!(utc_text(t, Pattern::Minute), "2000-02-28 23:59");
    assert_eq!(utc_text(t, Pattern::Second), "2000-02-28 23:59:59");
    assert_eq!(utc_text(t, Pattern::SecondUtc), "2000-02-28 23:59:59 UTC");
    assert_eq!(utc_text(t, Pattern::AtQueue), "23:59 2000-02-28");
    assert_eq!(utc_text(t, Pattern::Weekday), "2000-02-28 23:59 Mon");
    assert_eq!(utc_text(at(253_402_300_799), Pattern::Minute), "9999-12-31 23:59");
    let leap = Timestamp {
        secs: 951_782_399,
        nanos: 1_500_000_000,
    };
    assert_eq!(utc_text(leap, Pattern::Second), "2000-02-28 23:59:60");
    let last = Timestamp {
        secs: usched::moment::MAX_SECS,
        nanos: 1_999_999_999,
    };
    assert_eq!(utc_text(last, Pattern::Second), "+262142-12-31 23:59:60");
    let first = at(usched::moment::MIN_SECS);
    assert_eq!(utc_text(first, Pattern::Second), "-262143-01-01 00:00:00");
    assert!(!local_text(last, Pattern::Second).is_empty());
    assert!(!local_text(first, Pattern::Second).is_empty());
    let local = chrono::DateTime::from_timestamp(t.secs, 0)
        .unwrap()
        .with_timezone(&chrono::Local);
    assert_eq!(
        local_text(t, Pattern::Weekday),
        local.format("%Y-%m-%d %H:%M %a").to_string()
    );
    let d = LocalDateTime {
        day: 719_163,
        time: TimeOfDay { secs: 61, frac: 0 },
    };
    assert_eq!(clock_text(d, Pattern::Second), "1970-01-01 00:01:01");
}

//! Records of past executions.
use crate::moment::{
    instant_of, instant_read, instant_text, is_local_text, is_now, leap_in_place, local_text, read_instant,
    rfc3339_text, utc_now, Pattern, Timestamp,
};
use crate::number::{decimal, signed_text};
use crate::path::{join_path, path_join};
use crate::text::{opt_text, string_views};
use vstd::prelude::*;

verus! {

/// One execution of a job, or the skipping of one.
#[derive(Debug)]
pub struct Execution {
    pub job_id: String,
    pub job_name: String,
    pub started_at: Timestamp,
    pub finished_at: Option<Timestamp>,
    pub exit_code: Option<i32>,
    pub duration_ms: Option<i64>,
    pub skipped_reason: Option<String>,
}

#[verifier::ext_equal]
pub struct ExecutionView {
    pub job_id: Seq<char>,
    pub job_name: Seq<char>,
    pub started_at: Timestamp,
    pub finished_at: Option<Timestamp>,
    pub exit_code: Option<i32>,
    pub duration_ms: Option<i64>,
    pub skipped_reason: Option<Seq<char>>,
}

impl View for Execution {
    type V = ExecutionView;

    open spec fn view(&self) -> ExecutionView {
        ExecutionView {
            job_id: self.job_id@,
            job_name: self.job_name@,
            started_at: self.started_at,
            finished_at: self.finished_at,
            exit_code: self.exit_code,
            duration_ms: self.duration_ms,
            skipped_reason: opt_text(self.skipped_reason),
        }
    }
}

impl ExecutionView {
    /// Whether this is an execution of the job with this ID or name.
    pub open spec fn is_of(self, job_ref: Seq<char>) -> bool {
        self.job_id == job_ref || self.job_name == job_ref
    }
}

pub open spec fn execution_views(s: Seq<Execution>) -> Seq<ExecutionView> {
    s.map_values(|e: Execution| e@)
}

/// The file that the history is kept in.
pub fn db_path(data_dir: &str) -> (r: String)
    ensures
        r@ == path_join(data_dir@, "history.db"@),
{
    join_path(data_dir, "history.db")
}

/// A value for a place in a query.
#[derive(Debug, PartialEq, Eq)]
pub enum Param {
    Text(String),
    Int(i64),
}

#[verifier::ext_equal]
pub enum ParamView {
    Text(Seq<char>),
    Int(i64),
}

impl View for Param {
    type V = ParamView;

    open spec fn view(&self) -> ParamView {
        match *self {
            Param::Text(s) => ParamView::Text(s@),
            Param::Int(n) => ParamView::Int(n),
        }
    }
}

/// A query in SQL, and the values for its places in order.
#[derive(Debug)]
pub struct Query {
    pub sql: String,
    pub params: Vec<Param>,
}

#[verifier::ext_equal]
pub struct QueryView {
    pub sql: Seq<char>,
    pub params: Seq<ParamView>,
}

impl View for Query {
    type V = QueryView;

    open spec fn view(&self) -> QueryView {
        QueryView { sql: self.sql@, params: self.params@.map_values(|p: Param| p@) }
    }
}

/// A query for the records of the history, the last first: those of a job by its ID or its
/// name, those of failed executions only, up to a number of them.
pub open spec fn query_of(job_filter: Option<Seq<char>>, failed_only: bool, limit: usize) -> QueryView {
    let by_job = match job_filter {
        Some(_) => " AND (job_id = ? OR job_name = ?)"@,
        None => Seq::empty(),
    };
    let by_outcome = if failed_only {
        " AND (exit_code IS NOT NULL AND exit_code != 0)"@
    } else {
        Seq::empty()
    };
    QueryView {
        sql: "SELECT job_id, job_name, started_at, finished_at, exit_code, duration_ms, skipped_reason FROM executions WHERE 1=1"@
            + by_job + by_outcome + " ORDER BY started_at DESC LIMIT ?"@,
        params: (match job_filter {
            Some(f) => seq![ParamView::Text(f), ParamView::Text(f)],
            None => Seq::empty(),
        }) + seq![ParamView::Int(limit as i64)],
    }
}

/// A query for the records of the history.
pub fn query_history(job_filter: Option<&str>, failed_only: bool, limit: usize) -> (r: Query)
    ensures
        r@ == query_of(
            match job_filter {
                Some(f) => Some(f@),
                None => None,
            },
            failed_only,
            limit,
        ),
{
    let mut sql =
        "SELECT job_id, job_name, started_at, finished_at, exit_code, duration_ms, skipped_reason FROM executions WHERE 1=1".to_owned();
    let mut params: Vec<Param> = Vec::new();
    let ghost head = sql@;
    if let Some(filter) = job_filter {
        sql.append(" AND (job_id = ? OR job_name = ?)");
        params.push(Param::Text(filter.to_owned()));
        params.push(Param::Text(filter.to_owned()));
    } else {
        assert(sql@ == head + Seq::<char>::empty());
    }
    let ghost mid = sql@;
    if failed_only {
        sql.append(" AND (exit_code IS NOT NULL AND exit_code != 0)");
    } else {
        assert(sql@ == mid + Seq::<char>::empty());
    }
    sql.append(" ORDER BY started_at DESC LIMIT ?");
    params.push(Param::Int(limit as i64));
    let r = Query { sql, params };
    proof {
        let f = match job_filter {
            Some(f) => Some(f@),
            None => None,
        };
        assert(r@.params == query_of(f, failed_only, limit).params);
    }
    r
}

/// A record as the history keeps it, with its instants as text.
#[derive(Debug)]
pub struct Row {
    pub job_id: String,
    pub job_name: String,
    pub started_at: String,
    pub finished_at: Option<String>,
    pub exit_code: Option<i32>,
    pub duration_ms: Option<i64>,
    pub skipped_reason: Option<String>,
}

/// What a record tells, given what its instants read as: a start that cannot be read is taken
/// to be `now`, and an end that cannot be read to be missing.
pub open spec fn told_by(
    row: Row,
    started: Option<Timestamp>,
    finished: Option<Timestamp>,
    now: Timestamp,
) -> ExecutionView {
    ExecutionView {
        job_id: row.job_id@,
        job_name: row.job_name@,
        started_at: match started {
            Some(t) => t,
            None => now,
        },
        finished_at: finished,
        exit_code: row.exit_code,
        duration_ms: row.duration_ms,
        skipped_reason: opt_text(row.skipped_reason),
    }
}

/// What a record tells, given what its instants read as and the present.
pub fn execution_with(
    row: Row,
    started: Option<Timestamp>,
    finished: Option<Timestamp>,
    now: Timestamp,
) -> (r: Execution)
    ensures
        r@ == told_by(row, started, finished, now),
{
    Execution {
        job_id: row.job_id,
        job_name: row.job_name,
        started_at: match started {
            Some(t) => t,
            None => now,
        },
        finished_at: finished,
        exit_code: row.exit_code,
        duration_ms: row.duration_ms,
        skipped_reason: row.skipped_reason,
    }
}

/// What the text of an end that may be missing reads as.
pub open spec fn end_read(text: Option<String>) -> Option<Timestamp> {
    match text {
        Some(s) => instant_of(s@),
        None => None,
    }
}

/// `e` is what a record tells. The clock is looked at where the start cannot be read.
pub open spec fn is_told_by(e: ExecutionView, row: Row) -> bool {
    &&& e == told_by(row, instant_of(row.started_at@), end_read(row.finished_at), e.started_at)
    &&& instant_of(row.started_at@) is None ==> is_now(e.started_at)
}

/// The execution that a record tells of.
pub fn execution_of(row: Row) -> (r: Execution)
    ensures
        is_told_by(r@, row),
        r.started_at.wf(),
        r.finished_at matches Some(t) ==> t.wf(),
{
    let finished = match &row.finished_at {
        Some(s) => read_instant(s.as_str()),
        None => None,
    };
    match read_instant(row.started_at.as_str()) {
        Some(t) => execution_with(row, Some(t), finished, t),
        None => execution_with(row, None, finished, utc_now()),
    }
}

/// A record of the start of an execution at an instant.
pub open spec fn start_query_of(job_id: Seq<char>, job_name: Seq<char>, now: Timestamp) -> QueryView {
    QueryView {
        sql: "INSERT INTO executions (job_id, job_name, started_at) VALUES (?1, ?2, ?3)"@,
        params: seq![
            ParamView::Text(job_id),
            ParamView::Text(job_name),
            ParamView::Text(rfc3339_text(now.secs as int, now.nanos as int)),
        ],
    }
}

/// A record of the end of an execution at an instant, in the row of its start.
pub open spec fn finish_query_of(row_id: i64, exit_code: i32, duration_ms: i64, now: Timestamp) -> QueryView {
    QueryView {
        sql: "UPDATE executions SET finished_at = ?1, exit_code = ?2, duration_ms = ?3 WHERE id = ?4"@,
        params: seq![
            ParamView::Text(rfc3339_text(now.secs as int, now.nanos as int)),
            ParamView::Int(exit_code as i64),
            ParamView::Int(duration_ms),
            ParamView::Int(row_id),
        ],
    }
}

/// A record that an execution was skipped at an instant.
pub open spec fn skip_query_of(
    job_id: Seq<char>,
    job_name: Seq<char>,
    reason: Seq<char>,
    now: Timestamp,
) -> QueryView {
    QueryView {
        sql: "INSERT INTO executions (job_id, job_name, started_at, skipped_reason) VALUES (?1, ?2, ?3, ?4)"@,
        params: seq![
            ParamView::Text(job_id),
            ParamView::Text(job_name),
            ParamView::Text(rfc3339_text(now.secs as int, now.nanos as int)),
            ParamView::Text(reason),
        ],
    }
}

/// Whether the text that is stored for an instant reads back as that instant.
pub open spec fn is_kept(t: Timestamp) -> bool {
    instant_of(rfc3339_text(t.secs as int, t.nanos as int)) == Some(t)
}

/// A record of the start of an execution at an instant.
pub fn start_query(job_id: &str, job_name: &str, now: Timestamp) -> (r: Query)
    requires
        now.wf(),
    ensures
        r@ == start_query_of(job_id@, job_name@, now),
        leap_in_place(now) ==> is_kept(now),
{
    let mut params: Vec<Param> = Vec::new();
    params.push(Param::Text(job_id.to_owned()));
    params.push(Param::Text(job_name.to_owned()));
    params.push(Param::Text(instant_text(now)));
    let sql = "INSERT INTO executions (job_id, job_name, started_at) VALUES (?1, ?2, ?3)".to_owned();
    let r = Query { sql, params };
    assert(r@.params == start_query_of(job_id@, job_name@, now).params);
    r
}

/// A record of the end of an execution at an instant, in the row of its start.
pub fn finish_query(row_id: i64, exit_code: i32, duration_ms: i64, now: Timestamp) -> (r: Query)
    requires
        now.wf(),
    ensures
        r@ == finish_query_of(row_id, exit_code, duration_ms, now),
        leap_in_place(now) ==> is_kept(now),
{
    let mut params: Vec<Param> = Vec::new();
    params.push(Param::Text(instant_text(now)));
    params.push(Param::Int(exit_code as i64));
    params.push(Param::Int(duration_ms));
    params.push(Param::Int(row_id));
    let sql =
        "UPDATE executions SET finished_at = ?1, exit_code = ?2, duration_ms = ?3 WHERE id = ?4".to_owned();
    let r = Query { sql, params };
    assert(r@.params == finish_query_of(row_id, exit_code, duration_ms, now).params);
    r
}

/// A record that an execution was skipped at an instant.
pub fn skip_query(job_id: &str, job_name: &str, reason: &str, now: Timestamp) -> (r: Query)
    requires
        now.wf(),
    ensures
        r@ == skip_query_of(job_id@, job_name@, reason@, now),
        leap_in_place(now) ==> is_kept(now),
{
    let mut params: Vec<Param> = Vec::new();
    params.push(Param::Text(job_id.to_owned()));
    params.push(Param::Text(job_name.to_owned()));
    params.push(Param::Text(instant_text(now)));
    params.push(Param::Text(reason.to_owned()));
    let sql =
        "INSERT INTO executions (job_id, job_name, started_at, skipped_reason) VALUES (?1, ?2, ?3, ?4)".to_owned();
    let r = Query { sql, params };
    assert(r@.params == skip_query_of(job_id@, job_name@, reason@, now).params);
    r
}

/// A record of the start of an execution now.
pub fn record_start(job_id: &str, job_name: &str) -> (r: Query)
    ensures
        exists|now: Timestamp| #[trigger]
            is_now(now) && is_kept(now) && r@ == start_query_of(job_id@, job_name@, now),
{
    let now = utc_now();
    let r = start_query(job_id, job_name, now);
    assert(is_now(now));
    r
}

/// A record of the end of an execution now, in the row of its start.
pub fn record_finish(row_id: i64, exit_code: i32, duration_ms: i64) -> (r: Query)
    ensures
        exists|now: Timestamp| #[trigger]
            is_now(now) && is_kept(now) && r@ == finish_query_of(
                row_id,
                exit_code,
                duration_ms,
                now,
            ),
{
    let now = utc_now();
    let r = finish_query(row_id, exit_code, duration_ms, now);
    assert(is_now(now));
    r
}

/// A record that an execution was skipped now.
pub fn record_skip(job_id: &str, job_name: &str, reason: &str) -> (r: Query)
    ensures
        exists|now: Timestamp| #[trigger]
            is_now(now) && is_kept(now) && r@ == skip_query_of(job_id@, job_name@, reason@, now),
{
    let now = utc_now();
    let r = skip_query(job_id, job_name, reason, now);
    assert(is_now(now));
    r
}

/// A record whose start was stored for an instant tells of that instant, and so of its end.
pub proof fn law_stored_instants_are_told(e: ExecutionView, row: Row, t: Timestamp)
    requires
        is_told_by(e, row),
        is_kept(t),
    ensures
        row.started_at@ == rfc3339_text(t.secs as int, t.nanos as int) ==> e.started_at == t,
        row.finished_at matches Some(s) && s@ == rfc3339_text(t.secs as int, t.nanos as int)
            ==> e.finished_at == Some(t),
{
}

/// What of a job's records is counted.
#[derive(Clone, Copy, Debug, PartialEq, Eq, Structural)]
pub enum Count {
    /// The executions that were not skipped.
    Runs,
    /// Those that succeeded.
    Successes,
    /// Those that were skipped.
    Skips,
}

/// A query for the number of a job's records.
pub open spec fn count_query_of(kind: Count, job_id: Seq<char>) -> QueryView {
    QueryView {
        sql: "SELECT COUNT(*) FROM executions WHERE job_id = ?1 AND "@ + match kind {
            Count::Runs => "skipped_reason IS NULL"@,
            Count::Successes => "exit_code = 0"@,
            Count::Skips => "skipped_reason IS NOT NULL"@,
        },
        params: seq![ParamView::Text(job_id)],
    }
}

/// A query for the number of a job's records.
pub fn count_query(kind: Count, job_id: &str) -> (r: Query)
    ensures
        r@ == count_query_of(kind, job_id@),
{
    let mut sql = "SELECT COUNT(*) FROM executions WHERE job_id = ?1 AND ".to_owned();
    sql.append(
        match kind {
            Count::Runs => "skipped_reason IS NULL",
            Count::Successes => "exit_code = 0",
            Count::Skips => "skipped_reason IS NOT NULL",
        },
    );
    one_text_query(sql, job_id)
}

/// A query for the mean time that a job's successful executions took.
pub fn mean_query(job_id: &str) -> (r: Query)
    ensures
        r@ == (QueryView {
            sql: "SELECT AVG(duration_ms) FROM executions WHERE job_id = ?1 AND exit_code = 0"@,
            params: seq![ParamView::Text(job_id@)],
        }),
{
    one_text_query(
        "SELECT AVG(duration_ms) FROM executions WHERE job_id = ?1 AND exit_code = 0".to_owned(),
        job_id,
    )
}

fn one_text_query(sql: String, value: &str) -> (r: Query)
    ensures
        r@ == (QueryView { sql: sql@, params: seq![ParamView::Text(value@)] }),
{
    let mut params: Vec<Param> = Vec::new();
    params.push(Param::Text(value.to_owned()));
    let r = Query { sql, params };
    assert(r@.params == seq![ParamView::Text(value@)]);
    r
}

/// How an execution ended, or `running` where it has not.
pub open spec fn outcome_text(exit_code: Option<i32>, running: Seq<char>) -> Seq<char> {
    match exit_code {
        Some(code) => if code == 0 {
            "✓"@
        } else {
            "✗ exit "@ + decimal(code as int)
        },
        None => running,
    }
}

/// How an execution ended, or `running` where it has not.
pub fn outcome(exit_code: Option<i32>, running: &str) -> (r: String)
    ensures
        r@ == outcome_text(exit_code, running@),
{
    match exit_code {
        Some(code) => if code == 0 {
            "✓".to_owned()
        } else {
            let mut r = "✗ exit ".to_owned();
            r.append(signed_text(code as i64).as_str());
            r
        },
        None => running.to_owned(),
    }
}

/// How long an execution took. `seconds` writes that in seconds, to one decimal place.
pub open spec fn took_text(duration_ms: Option<i64>, seconds: Seq<char>) -> Seq<char> {
    match duration_ms {
        None => Seq::empty(),
        Some(ms) => if ms < 1000 {
            decimal(ms as int) + "ms"@
        } else if ms < 60_000 {
            seconds + "s"@
        } else {
            decimal(ms as int / 60_000) + "m "@ + decimal(ms as int % 60_000 / 1000) + "s"@
        },
    }
}

fn took(duration_ms: Option<i64>, seconds: &str) -> (r: String)
    ensures
        r@ == took_text(duration_ms, seconds@),
{
    match duration_ms {
        None => String::new(),
        Some(ms) => if ms < 1000 {
            let mut r = signed_text(ms);
            r.append("ms");
            r
        } else if ms < 60_000 {
            let mut r = seconds.to_owned();
            r.append("s");
            r
        } else {
            let mut r = signed_text(ms / 60_000);
            r.append("m ");
            r.append(signed_text(ms % 60_000 / 1000).as_str());
            r.append("s");
            r
        },
    }
}

/// What to say of an execution, given when it started and how many seconds it took.
pub open spec fn history_line(e: ExecutionView, time: Seq<char>, seconds: Seq<char>) -> Seq<char> {
    let head = "  "@ + time + " "@ + e.job_id + " ("@ + e.job_name + ") — "@;
    match e.skipped_reason {
        Some(reason) => head + "skipped: "@ + reason,
        None => head + outcome_text(e.exit_code, "… running"@) + " "@ + took_text(
            e.duration_ms,
            seconds,
        ),
    }
}

/// What to say of an execution, given when it started and how many seconds it took.
pub fn describe(e: &Execution, time: &str, seconds: &str) -> (r: String)
    ensures
        r@ == history_line(e@, time@, seconds@),
{
    let mut r = "  ".to_owned();
    r.append(time);
    r.append(" ");
    r.append(e.job_id.as_str());
    r.append(" (");
    r.append(e.job_name.as_str());
    r.append(") — ");
    match &e.skipped_reason {
        Some(reason) => {
            r.append("skipped: ");
            r.append(reason.as_str());
        },
        None => {
            r.append(outcome(e.exit_code, "… running").as_str());
            r.append(" ");
            r.append(took(e.duration_ms, seconds).as_str());
        },
    }
    r
}

pub open spec fn executions_wf(executions: Seq<Execution>) -> bool {
    forall|i: int| 0 <= i < executions.len() ==> (#[trigger] executions[i]).started_at.wf()
}

/// `line` tells of an execution, with the local time at which it started.
pub open spec fn is_history_line(line: Seq<char>, e: ExecutionView, seconds: Seq<char>) -> bool {
    exists|time: Seq<char>|
        is_local_text(time, e.started_at, Pattern::Second.spec_format()) && line
            == #[trigger] history_line(e, time, seconds)
}

/// What to say of executions, with local times. `seconds` holds how many seconds each took,
/// to one decimal place.
pub fn print_history(executions: &Vec<Execution>, seconds: &Vec<String>) -> (r: Vec<String>)
    requires
        executions_wf(executions@),
        seconds@.len() == executions@.len(),
    ensures
        executions@.len() == 0 ==> string_views(r@) == seq!["No execution history."@],
        executions@.len() > 0 ==> r@.len() == executions@.len(),
        executions@.len() > 0 ==> forall|i: int|
            0 <= i < r@.len() ==> is_history_line(
                (#[trigger] r@[i])@,
                executions@[i]@,
                seconds@[i]@,
            ),
{
    let mut r: Vec<String> = Vec::new();
    if executions.len() == 0 {
        r.push("No execution history.".to_owned());
        assert(string_views(r@) == seq!["No execution history."@]);
        return r;
    }
    let mut i: usize = 0;
    while i < executions.len()
        invariant
            i <= executions@.len() == seconds@.len(),
            executions_wf(executions@),
            r@.len() == i,
            forall|j: int|
                0 <= j < i ==> is_history_line((#[trigger] r@[j])@, executions@[j]@, seconds@[j]@),
        decreases executions.len() - i,
    {
        let e = &executions[i];
        assert(executions@[i as int].started_at.wf());
        let time = local_text(e.started_at, Pattern::Second);
        let line = describe(e, time.as_str(), seconds[i].as_str());
        assert(line@ == history_line(e@, time@, seconds@[i as int]@));
        r.push(line);
        i += 1;
    }
    r
}

/// The counts of a job's executions, as they are told. `avg` writes the mean time that a
/// successful one took.
pub fn stats_line(total: i64, successes: i64, skips: i64, avg: Option<&str>) -> (r: String)
    requires
        i64::MIN <= total - successes <= i64::MAX,
    ensures
        r@ == "  runs: "@ + decimal(total as int) + " | success: "@ + decimal(successes as int)
            + " | failed: "@ + decimal(total - successes) + " | skipped: "@ + decimal(skips as int)
            + " | avg duration: "@ + match avg {
            Some(t) => t@,
            None => "n/a"@,
        },
{
    let mut r = "  runs: ".to_owned();
    r.append(signed_text(total).as_str());
    r.append(" | success: ");
    r.append(signed_text(successes).as_str());
    r.append(" | failed: ");
    r.append(signed_text(total - successes).as_str());
    r.append(" | skipped: ");
    r.append(signed_text(skips).as_str());
    r.append(" | avg duration: ");
    match avg {
        Some(t) => r.append(t),
        None => r.append("n/a"),
    }
    r
}

/// What to say before the executions of a job, or of all jobs. `stats` is the line with its
/// counts, where they could be had.
pub fn cmd_history(job: Option<&str>, stats: Option<&str>) -> (r: Vec<String>)
    ensures
        string_views(r@) == match (job, stats) {
            (Some(j), Some(line)) => seq![
                "History for '"@ + j@ + "':"@,
                line@,
                Seq::<char>::empty(),
            ],
            (Some(j), None) => seq!["History for '"@ + j@ + "':"@, Seq::<char>::empty()],
            (None, _) => seq!["Recent execution history:"@, Seq::<char>::empty()],
        },
{
    let mut r: Vec<String> = Vec::new();
    match job {
        Some(j) => {
            let mut head = "History for '".to_owned();
            head.append(j);
            head.append("':");
            r.push(head);
            if let Some(line) = stats {
                r.push(line.to_owned());
            }
        },
        None => {
            r.push("Recent execution history:".to_owned());
        },
    }
    let blank = String::new();
    r.push(blank);
    proof {
        assert(blank@ == Seq::<char>::empty());
        match (job, stats) {
            (Some(j), Some(line)) => {
                assert(string_views(r@) == seq![
                    "History for '"@ + j@ + "':"@,
                    line@,
                    Seq::<char>::empty(),
                ]);
            },
            (Some(j), None) => {
                assert(string_views(r@) == seq![
                    "History for '"@ + j@ + "':"@,
                    Seq::<char>::empty(),
                ]);
            },
            (None, _) => {
                assert(string_views(r@) == seq![
                    "Recent execution history:"@,
                    Seq::<char>::empty(),
                ]);
            },
        }
    }
    r
}

/// The history is asked for its records, the last first and no more than are wanted; for those
/// of a job by its ID or its name where one is named, and for failed ones alone where those are.
pub proof fn law_history_is_asked_for_what_is_wanted(job: Seq<char>, limit: usize)
    ensures
        ({
            let all =
                "SELECT job_id, job_name, started_at, finished_at, exit_code, duration_ms, skipped_reason FROM executions WHERE 1=1"@;
            let by_job = " AND (job_id = ? OR job_name = ?)"@;
            let failed = " AND (exit_code IS NOT NULL AND exit_code != 0)"@;
            let last = " ORDER BY started_at DESC LIMIT ?"@;
            let named = seq![
                ParamView::Text(job),
                ParamView::Text(job),
                ParamView::Int(limit as i64),
            ];
            &&& query_of(None, false, limit) == (QueryView {
                sql: all + last,
                params: seq![ParamView::Int(limit as i64)],
            })
            &&& query_of(None, true, limit) == (QueryView {
                sql: all + failed + last,
                params: seq![ParamView::Int(limit as i64)],
            })
            &&& query_of(Some(job), false, limit) == (QueryView {
                sql: all + by_job + last,
                params: named,
            })
            &&& query_of(Some(job), true, limit) == (QueryView {
                sql: all + by_job + failed + last,
                params: named,
            })
        }),
{
    let all =
        "SELECT job_id, job_name, started_at, finished_at, exit_code, duration_ms, skipped_reason FROM executions WHERE 1=1"@;
    let by_job = " AND (job_id = ? OR job_name = ?)"@;
    let failed = " AND (exit_code IS NOT NULL AND exit_code != 0)"@;
    let e = Seq::<char>::empty();
    let none = Seq::<ParamView>::empty();
    let one = seq![ParamView::Int(limit as i64)];
    assert(all + e + e == all);
    assert(all + e + failed == all + failed);
    assert(all + by_job + e == all + by_job);
    assert(none + one == one);
    assert(seq![ParamView::Text(job), ParamView::Text(job)] + one == seq![
        ParamView::Text(job),
        ParamView::Text(job),
        ParamView::Int(limit as i64),
    ]);
}

/// What is written of an execution: when it started, of which job it is by ID and name, and why
/// it was skipped or how it ended and how long it took.
pub proof fn law_history_line_tells_all(e: ExecutionView, time: Seq<char>, seconds: Seq<char>)
    ensures
        ({
            let head = "  "@ + time + " "@ + e.job_id + " ("@ + e.job_name + ") — "@;
            let took = match e.duration_ms {
                None => Seq::<char>::empty(),
                Some(ms) => if ms < 1000 {
                    decimal(ms as int) + "ms"@
                } else if ms < 60_000 {
                    seconds + "s"@
                } else {
                    decimal(ms as int / 60_000) + "m "@ + decimal(ms as int % 60_000 / 1000) + "s"@
                },
            };
            match (e.skipped_reason, e.exit_code) {
                (Some(reason), _) => history_line(e, time, seconds) == head + "skipped: "@ + reason,
                (None, None) => history_line(e, time, seconds) == head + "… running"@ + " "@ + took,
                (None, Some(code)) => if code == 0 {
                    history_line(e, time, seconds) == head + "✓"@ + " "@ + took
                } else {
                    history_line(e, time, seconds) == head + ("✗ exit "@ + decimal(code as int))
                        + " "@ + took
                },
            }
        }),
{
}

/// A record tells what it holds: its job, how it ended, how long it took and why it was skipped
/// as they stand; its instants as they are read, with the present for a start that cannot be,
/// and none for such an end.
pub proof fn law_record_tells_what_it_holds(
    row: Row,
    started: Option<Timestamp>,
    finished: Option<Timestamp>,
    now: Timestamp,
)
    ensures
        ({
            let e = told_by(row, started, finished, now);
            &&& e.job_id == row.job_id@
            &&& e.job_name == row.job_name@
            &&& e.exit_code == row.exit_code
            &&& e.duration_ms == row.duration_ms
            &&& (e.skipped_reason is Some <==> row.skipped_reason is Some)
            &&& row.skipped_reason matches Some(s) ==> e.skipped_reason == Some(s@)
            &&& started matches Some(t) ==> e.started_at == t
            &&& started is None ==> e.started_at == now
            &&& e.finished_at == finished
        }),
{
}

/// Each start, end and skip is recorded with its instant; a count is of the runs, of the
/// successes or of the skips of one job.
pub proof fn law_records_and_counts(
    id: Seq<char>,
    name: Seq<char>,
    reason: Seq<char>,
    row_id: i64,
    code: i32,
    ms: i64,
    now: Timestamp,
)
    ensures
        ({
            let at = ParamView::Text(rfc3339_text(now.secs as int, now.nanos as int));
            &&& start_query_of(id, name, now).params == seq![
                ParamView::Text(id),
                ParamView::Text(name),
                at,
            ]
            &&& start_query_of(id, name, now).sql
                == "INSERT INTO executions (job_id, job_name, started_at) VALUES (?1, ?2, ?3)"@
            &&& finish_query_of(row_id, code, ms, now).params == seq![
                at,
                ParamView::Int(code as i64),
                ParamView::Int(ms),
                ParamView::Int(row_id),
            ]
            &&& finish_query_of(row_id, code, ms, now).sql
                == "UPDATE executions SET finished_at = ?1, exit_code = ?2, duration_ms = ?3 WHERE id = ?4"@
            &&& skip_query_of(id, name, reason, now).params == seq![
                ParamView::Text(id),
                ParamView::Text(name),
                at,
                ParamView::Text(reason),
            ]
            &&& skip_query_of(id, name, reason, now).sql
                == "INSERT INTO executions (job_id, job_name, started_at, skipped_reason) VALUES (?1, ?2, ?3, ?4)"@
            &&& count_query_of(Count::Runs, id).sql
                == "SELECT COUNT(*) FROM executions WHERE job_id = ?1 AND "@
                + "skipped_reason IS NULL"@
            &&& count_query_of(Count::Successes, id).sql
                == "SELECT COUNT(*) FROM executions WHERE job_id = ?1 AND "@ + "exit_code = 0"@
            &&& count_query_of(Count::Skips, id).sql
                == "SELECT COUNT(*) FROM executions WHERE job_id = ?1 AND "@
                + "skipped_reason IS NOT NULL"@
            &&& count_query_of(Count::Runs, id).params == seq![ParamView::Text(id)]
            &&& count_query_of(Count::Successes, id).params == seq![ParamView::Text(id)]
            &&& count_query_of(Count::Skips, id).params == seq![ParamView::Text(id)]
        }),
{
}

/// An execution that a record tells of started when its text says, or now where it says nothing
/// that can be read, and ended when its text says, if it says that.
pub proof fn law_record_is_read_by_its_text(e: ExecutionView, row: Row)
    requires
        is_told_by(e, row),
    ensures
        instant_read(row.started_at@) matches Some(t) ==> e.started_at == (Timestamp {
            secs: t.0 as i64,
            nanos: t.1 as u32,
        }),
        instant_read(row.started_at@) is None ==> is_now(e.started_at),
        row.finished_at is None ==> e.finished_at is None,
        row.finished_at matches Some(s) ==> match instant_read(s@) {
            Some(t) => e.finished_at == Some(Timestamp { secs: t.0 as i64, nanos: t.1 as u32 }),
            None => e.finished_at is None,
        },
        e.job_id == row.job_id@,
        e.job_name == row.job_name@,
        e.exit_code == row.exit_code,
        e.duration_ms == row.duration_ms,
{
}

/// The line of an execution has the local time at which it started, to the second.
pub proof fn law_history_line_has_local_time(line: Seq<char>, e: ExecutionView, seconds: Seq<char>)
    requires
        is_history_line(line, e, seconds),
    ensures
        exists|time: Seq<char>| #[trigger]
            is_local_text(time, e.started_at, "%Y-%m-%d %H:%M:%S"@) && line == history_line(
                e,
                time,
                seconds,
            ),
{
    let time = choose|time: Seq<char>|
        is_local_text(time, e.started_at, Pattern::Second.spec_format()) && line
            == #[trigger] history_line(e, time, seconds);
    assert(is_local_text(time, e.started_at, "%Y-%m-%d %H:%M:%S"@));
}

/// The counts of a job's executions are told as they are, with the failed ones as those that did
/// not succeed; what is told before its executions names the job.
pub proof fn law_counts_are_told(
    total: i64,
    successes: i64,
    skips: i64,
    avg: Option<&str>,
    line: String,
    job: Option<&str>,
    stats: Option<&str>,
    head: Vec<String>,
)
    requires
        call_ensures(stats_line, (total, successes, skips, avg), line),
        call_ensures(cmd_history, (job, stats), head),
    ensures
        line@ == "  runs: "@ + decimal(total as int) + " | success: "@ + decimal(successes as int)
            + " | failed: "@ + decimal(total - successes) + " | skipped: "@ + decimal(skips as int)
            + " | avg duration: "@ + match avg {
            Some(t) => t@,
            None => "n/a"@,
        },
        head@.len() > 0,
        job matches Some(j) ==> head@[0]@ == "History for '"@ + j@ + "':"@,
        job is None ==> head@[0]@ == "Recent execution history:"@,
        job is Some ==> (stats matches Some(s) ==> head@.len() == 3 && head@[1]@ == s@),
{
    let told = string_views(head@);
    assert(told.len() == head@.len());
    assert(told[0] == head@[0]@);
    if told.len() == 3 {
        assert(told[1] == head@[1]@);
    }
}

} // verus!
